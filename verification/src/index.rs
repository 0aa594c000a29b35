//! The index of one property: the rows (key, id) in ascending order, and
//! the range scans over them.

use vstd::prelude::*;
use crate::keys::{
    lemma_lex_total,
    lemma_lex_transitive,
    lemma_row_total,
    lemma_row_transitive,
    lex_le,
    lex_lt,
    row_lt,
    side_of,
    Row,
    Side,
};

verus! {

/// One row of an index.
#[derive(Debug)]
pub struct IndexEntry {
    pub key: Vec<u8>,
    pub id: u64,
}

impl View for IndexEntry {
    type V = Row;

    open spec fn view(&self) -> Row {
        (self.key@, self.id)
    }
}

/// The rows that a vector of entries stands for.
pub open spec fn rows_of(entries: Seq<IndexEntry>) -> Seq<Row> {
    Seq::new(entries.len(), |i: int| entries[i]@)
}

/// Each row comes before every later one.
pub open spec fn ascending(rows: Seq<Row>) -> bool {
    forall|i: int, j: int| 0 <= i < j < rows.len() ==> row_lt(#[trigger] rows[i], #[trigger] rows[j])
}

/// One end of a scan.
#[derive(Debug)]
pub enum Bound {
    /// No limit on this side.
    Unbounded,
    /// Rows whose key is this one are within.
    Inclusive(Vec<u8>),
    /// Rows whose key is this one are not within.
    Exclusive(Vec<u8>),
    /// Only rows strictly beyond this row are within.
    Beyond(Vec<u8>, u64),
}

/// One end of a scan, with its key as a byte string.
pub enum BoundView {
    Unbounded,
    Inclusive(Seq<u8>),
    Exclusive(Seq<u8>),
    Beyond(Seq<u8>, u64),
}

impl View for Bound {
    type V = BoundView;

    open spec fn view(&self) -> BoundView {
        match *self {
            Bound::Unbounded => BoundView::Unbounded,
            Bound::Inclusive(key) => BoundView::Inclusive(key@),
            Bound::Exclusive(key) => BoundView::Exclusive(key@),
            Bound::Beyond(key, id) => BoundView::Beyond(key@, id),
        }
    }
}

/// `row` lies within the lower end `lower`.
pub open spec fn above(row: Row, lower: BoundView) -> bool {
    match lower {
        BoundView::Unbounded => true,
        BoundView::Inclusive(key) => lex_le(key, row.0),
        BoundView::Exclusive(key) => lex_lt(key, row.0),
        BoundView::Beyond(key, id) => row_lt((key, id), row),
    }
}

/// `row` lies within the upper end `upper`.
pub open spec fn below(row: Row, upper: BoundView) -> bool {
    match upper {
        BoundView::Unbounded => true,
        BoundView::Inclusive(key) => lex_le(row.0, key),
        BoundView::Exclusive(key) => lex_lt(row.0, key),
        BoundView::Beyond(key, id) => row_lt(row, (key, id)),
    }
}

/// How many of `rows` lie before the lower end.
pub open spec fn count_before(rows: Seq<Row>, lower: BoundView) -> nat
    decreases rows.len(),
{
    if rows.len() == 0 {
        0
    } else {
        count_before(rows.drop_last(), lower) + if above(rows.last(), lower) {
            0nat
        } else {
            1nat
        }
    }
}

/// How many of `rows` do not lie after the upper end.
pub open spec fn count_upto(rows: Seq<Row>, upper: BoundView) -> nat
    decreases rows.len(),
{
    if rows.len() == 0 {
        0
    } else {
        count_upto(rows.drop_last(), upper) + if below(rows.last(), upper) {
            1nat
        } else {
            0nat
        }
    }
}

/// Where the rows within the two ends begin.
pub open spec fn range_start(rows: Seq<Row>, lower: BoundView) -> int {
    count_before(rows, lower) as int
}

/// Where the rows within the two ends stop: never before they begin.
pub open spec fn range_end(rows: Seq<Row>, lower: BoundView, upper: BoundView) -> int {
    if count_upto(rows, upper) < count_before(rows, lower) {
        count_before(rows, lower) as int
    } else {
        count_upto(rows, upper) as int
    }
}

/// The rows within the two ends, in ascending order. Of ascending rows
/// these are exactly the rows that lie within both ends
/// (`lemma_range_exact`).
pub open spec fn range(rows: Seq<Row>, lower: BoundView, upper: BoundView) -> Seq<Row> {
    rows.subrange(range_start(rows, lower), range_end(rows, lower, upper))
}

/// The whole scan: the rows within the two ends, ascending, or in the
/// exact reverse of that order where `descending`.
pub open spec fn scan_all(rows: Seq<Row>, lower: BoundView, upper: BoundView, descending: bool) -> Seq<
    Row,
> {
    if descending {
        range(rows, lower, upper).reverse()
    } else {
        range(rows, lower, upper)
    }
}

/// One page: the first `limit` rows of the whole scan.
pub open spec fn page(rows: Seq<Row>, lower: BoundView, upper: BoundView, descending: bool, limit: nat)
    -> Seq<Row> {
    let all = scan_all(rows, lower, upper, descending);
    if limit < all.len() {
        all.take(limit as int)
    } else {
        all
    }
}

pub proof fn lemma_count_bounds(rows: Seq<Row>, bound: BoundView)
    ensures
        count_before(rows, bound) <= rows.len(),
        count_upto(rows, bound) <= rows.len(),
    decreases rows.len(),
{
    if rows.len() > 0 {
        lemma_count_bounds(rows.drop_last(), bound);
    }
}

/// A row after one that lies within the lower end lies within it too.
pub proof fn lemma_above_upward(x: Row, y: Row, lower: BoundView)
    requires
        above(x, lower),
        row_lt(x, y),
    ensures
        above(y, lower),
{
    match lower {
        BoundView::Unbounded => {},
        BoundView::Inclusive(key) => {
            lemma_lex_total(key, x.0);
            if lex_lt(x.0, y.0) && lex_lt(key, x.0) {
                lemma_lex_transitive(key, x.0, y.0);
            }
        },
        BoundView::Exclusive(key) => {
            if lex_lt(x.0, y.0) {
                lemma_lex_transitive(key, x.0, y.0);
            }
        },
        BoundView::Beyond(key, id) => {
            lemma_row_transitive((key, id), x, y);
        },
    }
}

/// A row before one that lies within the upper end lies within it too.
pub proof fn lemma_below_downward(x: Row, y: Row, upper: BoundView)
    requires
        below(y, upper),
        row_lt(x, y),
    ensures
        below(x, upper),
{
    match upper {
        BoundView::Unbounded => {},
        BoundView::Inclusive(key) => {
            lemma_lex_total(y.0, key);
            if lex_lt(x.0, y.0) && lex_lt(y.0, key) {
                lemma_lex_transitive(x.0, y.0, key);
            }
        },
        BoundView::Exclusive(key) => {
            if lex_lt(x.0, y.0) {
                lemma_lex_transitive(x.0, y.0, key);
            }
        },
        BoundView::Beyond(key, id) => {
            lemma_row_transitive(x, y, (key, id));
        },
    }
}

/// Of ascending rows, those before the lower end are the first
/// `count_before` rows, and those not after the upper end the first
/// `count_upto`.
pub proof fn lemma_counts_split(rows: Seq<Row>, bound: BoundView)
    requires
        ascending(rows),
    ensures
        forall|i: int|
            0 <= i < rows.len() ==> (above(#[trigger] rows[i], bound) <==> count_before(rows, bound)
                <= i),
        forall|i: int|
            0 <= i < rows.len() ==> (below(#[trigger] rows[i], bound) <==> i < count_upto(
                rows,
                bound,
            )),
    decreases rows.len(),
{
    if rows.len() > 0 {
        let front = rows.drop_last();
        let last = rows.len() - 1;
        assert(ascending(front)) by {
            assert forall|i: int, j: int| 0 <= i < j < front.len() implies row_lt(
                #[trigger] front[i],
                #[trigger] front[j],
            ) by {
                assert(row_lt(rows[i], rows[j]));
            }
        }
        lemma_counts_split(front, bound);
        lemma_count_bounds(front, bound);
        assert forall|i: int| 0 <= i < rows.len() implies (above(#[trigger] rows[i], bound)
            <==> count_before(rows, bound) <= i) by {
            if i < last {
                assert(front[i] == rows[i]);
                if above(rows[i], bound) {
                    assert(row_lt(rows[i], rows[last]));
                    lemma_above_upward(rows[i], rows[last], bound);
                }
            } else {
                if !above(rows[last], bound) {
                    assert forall|k: int| 0 <= k < front.len() implies !above(
                        #[trigger] front[k],
                        bound,
                    ) by {
                        assert(row_lt(rows[k], rows[last]));
                        if above(rows[k], bound) {
                            lemma_above_upward(rows[k], rows[last], bound);
                        }
                    }
                    if count_before(front, bound) < front.len() {
                        assert(above(front[count_before(front, bound) as int], bound));
                    }
                }
            }
        }
        assert forall|i: int| 0 <= i < rows.len() implies (below(#[trigger] rows[i], bound)
            <==> i < count_upto(rows, bound)) by {
            if i < last {
                assert(front[i] == rows[i]);
                if below(rows[last], bound) {
                    assert(row_lt(rows[i], rows[last]));
                    lemma_below_downward(rows[i], rows[last], bound);
                    assert forall|k: int| 0 <= k < front.len() implies below(
                        #[trigger] front[k],
                        bound,
                    ) by {
                        assert(row_lt(rows[k], rows[last]));
                        lemma_below_downward(rows[k], rows[last], bound);
                    }
                    if count_upto(front, bound) < front.len() {
                        assert(!below(front[count_upto(front, bound) as int], bound));
                    }
                }
            } else {
                if below(rows[last], bound) {
                    assert forall|k: int| 0 <= k < front.len() implies below(
                        #[trigger] front[k],
                        bound,
                    ) by {
                        assert(row_lt(rows[k], rows[last]));
                        lemma_below_downward(rows[k], rows[last], bound);
                    }
                    if count_upto(front, bound) < front.len() {
                        assert(!below(front[count_upto(front, bound) as int], bound));
                    }
                }
            }
        }
    }
}

/// Of ascending rows, the range holds exactly the rows that lie within
/// both ends: none is left out and none is added.
pub proof fn lemma_range_exact(rows: Seq<Row>, lower: BoundView, upper: BoundView)
    requires
        ascending(rows),
    ensures
        0 <= range_start(rows, lower) <= range_end(rows, lower, upper) <= rows.len(),
        forall|i: int|
            0 <= i < rows.len() ==> ((above(#[trigger] rows[i], lower) && below(rows[i], upper))
                <==> range_start(rows, lower) <= i < range_end(rows, lower, upper)),
{
    lemma_counts_split(rows, lower);
    lemma_counts_split(rows, upper);
    lemma_count_bounds(rows, lower);
    lemma_count_bounds(rows, upper);
}

/// How the row (`key`, `id`) stands to the row `entry`.
fn row_side(key: &Vec<u8>, id: u64, entry: &IndexEntry) -> (side: Side)
    ensures
        side == Side::Before <==> row_lt((key@, id), entry@),
        side == Side::Same <==> (key@, id) == entry@,
        side == Side::After <==> row_lt(entry@, (key@, id)),
{
    proof {
        lemma_row_total((key@, id), entry@);
    }
    match side_of(key, &entry.key) {
        Side::Before => Side::Before,
        Side::After => Side::After,
        Side::Same => {
            if id < entry.id {
                Side::Before
            } else if id > entry.id {
                Side::After
            } else {
                Side::Same
            }
        },
    }
}

fn is_above(entry: &IndexEntry, lower: &Bound) -> (yes: bool)
    ensures
        yes == above(entry@, lower@),
{
    match lower {
        Bound::Unbounded => true,
        Bound::Inclusive(key) => {
            let side = side_of(key, &entry.key);
            side == Side::Before || side == Side::Same
        },
        Bound::Exclusive(key) => side_of(key, &entry.key) == Side::Before,
        Bound::Beyond(key, id) => row_side(key, *id, entry) == Side::Before,
    }
}

fn is_below(entry: &IndexEntry, upper: &Bound) -> (yes: bool)
    ensures
        yes == below(entry@, upper@),
{
    match upper {
        Bound::Unbounded => true,
        Bound::Inclusive(key) => {
            let side = side_of(&entry.key, key);
            side == Side::Before || side == Side::Same
        },
        Bound::Exclusive(key) => side_of(&entry.key, key) == Side::Before,
        Bound::Beyond(key, id) => row_side(key, *id, entry) == Side::After,
    }
}

fn copy_bytes(bytes: &Vec<u8>) -> (copy: Vec<u8>)
    ensures
        copy@ == bytes@,
{
    let mut copy: Vec<u8> = Vec::new();
    let mut i: usize = 0;
    while i < bytes.len()
        invariant
            i <= bytes@.len(),
            copy@ == bytes@.take(i as int),
        decreases bytes@.len() - i,
    {
        copy.push(bytes[i]);
        assert(copy@ =~= bytes@.take(i + 1));
        i = i + 1;
    }
    assert(bytes@.take(i as int) =~= bytes@);
    copy
}

/// The index of one property: its rows, kept in ascending order, no row
/// twice.
#[derive(Debug)]
pub struct PropertyIndex {
    entries: Vec<IndexEntry>,
}

impl View for PropertyIndex {
    type V = Seq<Row>;

    closed spec fn view(&self) -> Seq<Row> {
        rows_of(self.entries@)
    }
}

impl PropertyIndex {
    #[verifier::type_invariant]
    spec fn ordered(&self) -> bool {
        ascending(rows_of(self.entries@))
    }

    /// An index without rows.
    pub fn new() -> (index: Self)
        ensures
            index@ == Seq::<Row>::empty(),
    {
        let index = PropertyIndex { entries: Vec::new() };
        assert(index@ =~= Seq::<Row>::empty());
        index
    }

    /// The rows, in ascending order.
    pub fn entries(&self) -> (entries: &Vec<IndexEntry>)
        ensures
            rows_of(entries@) == self@,
            ascending(self@),
    {
        proof {
            use_type_invariant(self);
        }
        &self.entries
    }

    /// Nothing to compute: the rows of every index are in ascending order.
    pub fn in_order(&self)
        ensures
            ascending(self@),
    {
        proof {
            use_type_invariant(self);
        }
    }

    /// How many rows the index holds.
    pub fn len(&self) -> (len: usize)
        ensures
            len == self@.len(),
    {
        self.entries.len()
    }

    /// How many rows come before the row (`key`, `id`).
    fn rank(&self, key: &Vec<u8>, id: u64) -> (rank: usize)
        ensures
            rank <= self@.len(),
            forall|i: int| 0 <= i < rank ==> row_lt(#[trigger] self@[i], (key@, id)),
            rank < self@.len() ==> !row_lt(self@[rank as int], (key@, id)),
    {
        let mut rank: usize = 0;
        while rank < self.entries.len()
            invariant
                rank <= self.entries@.len(),
                forall|i: int| 0 <= i < rank ==> row_lt(#[trigger] self@[i], (key@, id)),
            decreases self.entries@.len() - rank,
        {
            if row_side(key, id, &self.entries[rank]) != Side::After {
                return rank;
            }
            rank = rank + 1;
        }
        rank
    }

    /// Whether the index holds the row (`key`, `id`).
    pub fn contains(&self, key: &Vec<u8>, id: u64) -> (yes: bool)
        ensures
            yes == self@.contains((key@, id)),
    {
        proof {
            use_type_invariant(self);
        }
        let rank = self.rank(key, id);
        let ghost row = (key@, id);
        if rank < self.entries.len() && row_side(key, id, &self.entries[rank]) == Side::Same {
            assert(self@[rank as int] == row);
            true
        } else {
            proof {
                if self@.contains(row) {
                    let k = choose|k: int| 0 <= k < self@.len() && self@[k] == row;
                    lemma_row_total(row, row);
                    if k < rank {
                        assert(row_lt(self@[k], row));
                    } else if k > rank {
                        assert(row_lt(self@[rank as int], self@[k]));
                        lemma_row_total(self@[rank as int], row);
                    }
                }
            }
            false
        }
    }

    /// Adds the row (`key`, `id`); an index that holds it stays as it is.
    pub fn insert(&mut self, key: Vec<u8>, id: u64)
        ensures
            ascending(final(self)@),
            forall|row: Row|
                final(self)@.contains(row) <==> (old(self)@.contains(row) || row == (key@, id)),
    {
        proof {
            use_type_invariant(&*self);
        }
        let rank = self.rank(&key, id);
        let ghost before = self@;
        let ghost row = (key@, id);
        if rank < self.entries.len() && row_side(&key, id, &self.entries[rank]) == Side::Same {
            assert(before[rank as int] == row);
            return ;
        }
        let mut entries: Vec<IndexEntry> = Vec::new();
        std::mem::swap(&mut entries, &mut self.entries);
        assert(rows_of(self.entries@) =~= Seq::<Row>::empty());
        entries.insert(rank, IndexEntry { key, id });
        let ghost after = rows_of(entries@);
        proof {
            assert(after =~= before.insert(rank as int, row));
            assert forall|i: int, j: int| 0 <= i < j < after.len() implies row_lt(
                #[trigger] after[i],
                #[trigger] after[j],
            ) by {
                if j < rank {
                    assert(row_lt(before[i], before[j]));
                } else if j == rank {
                    assert(row_lt(before[i], row));
                } else if i == rank {
                    lemma_row_total(before[rank as int], row);
                    if j - 1 > rank {
                        assert(row_lt(before[rank as int], before[j - 1]));
                        lemma_row_transitive(row, before[rank as int], before[j - 1]);
                    }
                } else if i < rank {
                    assert(row_lt(before[i], before[j - 1]));
                } else {
                    assert(row_lt(before[i - 1], before[j - 1]));
                }
            }
            assert forall|r: Row| after.contains(r) <==> (before.contains(r) || r == row) by {
                if after.contains(r) {
                    let k = choose|k: int| 0 <= k < after.len() && after[k] == r;
                    if k < rank {
                        assert(before[k] == r);
                    } else if k > rank {
                        assert(before[k - 1] == r);
                    }
                }
                if before.contains(r) {
                    let k = choose|k: int| 0 <= k < before.len() && before[k] == r;
                    if k < rank {
                        assert(after[k] == r);
                    } else {
                        assert(after[k + 1] == r);
                    }
                }
                if r == row {
                    assert(after[rank as int] == r);
                }
            }
        }
        self.entries = entries;
    }

    /// Takes the row (`key`, `id`) out; an index that lacks it stays
    /// as it is.
    pub fn remove(&mut self, key: &Vec<u8>, id: u64)
        ensures
            ascending(final(self)@),
            forall|row: Row|
                final(self)@.contains(row) <==> (old(self)@.contains(row) && row != (key@, id)),
    {
        proof {
            use_type_invariant(&*self);
        }
        let rank = self.rank(key, id);
        let ghost before = self@;
        let ghost row = (key@, id);
        if rank < self.entries.len() && row_side(key, id, &self.entries[rank]) == Side::Same {
            let mut entries: Vec<IndexEntry> = Vec::new();
            std::mem::swap(&mut entries, &mut self.entries);
            assert(rows_of(self.entries@) =~= Seq::<Row>::empty());
            entries.remove(rank);
            let ghost after = rows_of(entries@);
            proof {
                assert(after =~= before.remove(rank as int));
                assert forall|i: int, j: int| 0 <= i < j < after.len() implies row_lt(
                    #[trigger] after[i],
                    #[trigger] after[j],
                ) by {
                    let bi = if i < rank {
                        i
                    } else {
                        i + 1
                    };
                    let bj = if j < rank {
                        j
                    } else {
                        j + 1
                    };
                    assert(row_lt(before[bi], before[bj]));
                }
                assert forall|r: Row| after.contains(r) <==> (before.contains(r) && r != row) by {
                    if after.contains(r) {
                        let k = choose|k: int| 0 <= k < after.len() && after[k] == r;
                        let bk = if k < rank {
                            k
                        } else {
                            k + 1
                        };
                        assert(before[bk] == r);
                        lemma_row_total(r, row);
                        if bk < rank {
                            assert(row_lt(before[bk], before[rank as int]));
                        } else {
                            assert(row_lt(before[rank as int], before[bk]));
                        }
                    }
                    if before.contains(r) && r != row {
                        let k = choose|k: int| 0 <= k < before.len() && before[k] == r;
                        if k < rank {
                            assert(after[k] == r);
                        } else {
                            assert(after[k - 1] == r);
                        }
                    }
                }
            }
            self.entries = entries;
        } else {
            proof {
                if before.contains(row) {
                    let k = choose|k: int| 0 <= k < before.len() && before[k] == row;
                    lemma_row_total(row, row);
                    if k < rank {
                        assert(row_lt(before[k], row));
                    } else if k > rank {
                        assert(row_lt(before[rank as int], before[k]));
                        lemma_row_total(before[rank as int], row);
                    }
                }
            }
        }
    }

    /// One page of a scan: the rows within the two ends, ascending or
    /// descending, `limit` of them at most.
    pub fn scan(&self, lower: &Bound, upper: &Bound, descending: bool, limit: usize) -> (found:
        Vec<IndexEntry>)
        ensures
            rows_of(found@) == page(self@, lower@, upper@, descending, limit as nat),
            ascending(self@),
    {
        proof {
            use_type_invariant(self);
            lemma_count_bounds(self@, lower@);
            lemma_count_bounds(self@, upper@);
        }
        let ghost rows = self@;
        let total = self.entries.len();
        let mut start: usize = 0;
        let mut end: usize = 0;
        let mut i: usize = 0;
        while i < total
            invariant
                i <= total == self.entries@.len(),
                rows == rows_of(self.entries@),
                start == count_before(rows.take(i as int), lower@),
                end == count_upto(rows.take(i as int), upper@),
                start <= i,
                end <= i,
            decreases total - i,
        {
            assert(rows.take(i + 1).drop_last() =~= rows.take(i as int));
            assert(rows.take(i + 1).last() == self.entries@[i as int]@);
            if !is_above(&self.entries[i], lower) {
                start = start + 1;
            }
            if is_below(&self.entries[i], upper) {
                end = end + 1;
            }
            i = i + 1;
        }
        assert(rows.take(total as int) =~= rows);
        if end < start {
            end = start;
        }
        let ghost all = range(rows, lower@, upper@);
        assert(all == rows.subrange(start as int, end as int));
        let mut found: Vec<IndexEntry> = Vec::new();
        if descending {
            let mut at: usize = end;
            while at > start && found.len() < limit
                invariant
                    start <= at <= end <= total == self.entries@.len(),
                    rows == rows_of(self.entries@),
                    all == rows.subrange(start as int, end as int),
                    found@.len() == end - at,
                    found@.len() <= limit,
                    rows_of(found@) == all.reverse().take(end - at),
                decreases at,
            {
                at = at - 1;
                found.push(
                    IndexEntry { key: copy_bytes(&self.entries[at].key), id: self.entries[at].id },
                );
                assert(rows_of(found@) =~= all.reverse().take(end - at));
            }
            assert(rows_of(found@) =~= page(rows, lower@, upper@, descending, limit as nat));
        } else {
            let mut at: usize = start;
            while at < end && found.len() < limit
                invariant
                    start <= at <= end <= total == self.entries@.len(),
                    rows == rows_of(self.entries@),
                    all == rows.subrange(start as int, end as int),
                    found@.len() == at - start,
                    found@.len() <= limit,
                    rows_of(found@) == all.take(at - start),
                decreases end - at,
            {
                found.push(
                    IndexEntry { key: copy_bytes(&self.entries[at].key), id: self.entries[at].id },
                );
                at = at + 1;
                assert(rows_of(found@) =~= all.take(at - start));
            }
            assert(rows_of(found@) =~= page(rows, lower@, upper@, descending, limit as nat));
        }
        found
    }
}

/// A page holds at most `limit` rows, and they are the beginning of the
/// whole scan.
pub proof fn lemma_page_is_prefix(
    rows: Seq<Row>,
    lower: BoundView,
    upper: BoundView,
    descending: bool,
    limit: nat,
)
    ensures
        page(rows, lower, upper, descending, limit).len() <= limit,
        page(rows, lower, upper, descending, limit).len() <= scan_all(
            rows,
            lower,
            upper,
            descending,
        ).len(),
        page(rows, lower, upper, descending, limit) == scan_all(
            rows,
            lower,
            upper,
            descending,
        ).take(page(rows, lower, upper, descending, limit).len() as int),
{
    let all = scan_all(rows, lower, upper, descending);
    assert(all.take(all.len() as int) =~= all);
}

/// An ascending scan of ascending rows is ascending: keys never decrease,
/// and rows of one key come by ascending id.
pub proof fn lemma_scan_ascending(rows: Seq<Row>, lower: BoundView, upper: BoundView, limit: nat)
    requires
        ascending(rows),
    ensures
        ascending(scan_all(rows, lower, upper, false)),
        ascending(page(rows, lower, upper, false, limit)),
{
    lemma_range_exact(rows, lower, upper);
    let all = range(rows, lower, upper);
    let start = range_start(rows, lower);
    assert forall|i: int, j: int| 0 <= i < j < all.len() implies row_lt(
        #[trigger] all[i],
        #[trigger] all[j],
    ) by {
        assert(row_lt(rows[start + i], rows[start + j]));
    }
    let first = page(rows, lower, upper, false, limit);
    assert forall|i: int, j: int| 0 <= i < j < first.len() implies row_lt(
        #[trigger] first[i],
        #[trigger] first[j],
    ) by {
        assert(row_lt(all[i], all[j]));
    }
}

/// A descending scan is the exact reverse of the ascending scan between
/// the same two ends.
pub proof fn lemma_descending_reverses(rows: Seq<Row>, lower: BoundView, upper: BoundView)
    ensures
        scan_all(rows, lower, upper, true) == scan_all(rows, lower, upper, false).reverse(),
{
}

/// Resuming after a row: where `taken` rows of a scan have been read and
/// the scan goes on strictly beyond the last of them, in place of the end
/// it started from, what comes is the rest of the scan, with no row
/// twice and none left out.
pub proof fn lemma_resume(
    rows: Seq<Row>,
    lower: BoundView,
    upper: BoundView,
    descending: bool,
    taken: int,
    cursor: BoundView,
)
    requires
        ascending(rows),
        0 < taken <= scan_all(rows, lower, upper, descending).len(),
        cursor == BoundView::Beyond(
            scan_all(rows, lower, upper, descending)[taken - 1].0,
            scan_all(rows, lower, upper, descending)[taken - 1].1,
        ),
    ensures
        descending ==> scan_all(rows, lower, cursor, true) == scan_all(
            rows,
            lower,
            upper,
            true,
        ).skip(taken),
        !descending ==> scan_all(rows, cursor, upper, false) == scan_all(
            rows,
            lower,
            upper,
            false,
        ).skip(taken),
{
    lemma_range_exact(rows, lower, upper);
    lemma_counts_split(rows, cursor);
    lemma_counts_split(rows, lower);
    lemma_counts_split(rows, upper);
    lemma_count_bounds(rows, cursor);
    lemma_count_bounds(rows, lower);
    lemma_count_bounds(rows, upper);
    let start = range_start(rows, lower);
    let end = range_end(rows, lower, upper);
    let all = range(rows, lower, upper);
    if descending {
        let at = end - taken;
        let last = rows[at];
        assert(all.reverse()[taken - 1] == all[all.len() - taken]);
        assert(all[all.len() - taken] == last);
        assert(count_upto(rows, cursor) == at) by {
            lemma_row_total(last, last);
            assert(!below(rows[at], cursor));
            if at > 0 {
                assert(row_lt(rows[at - 1], rows[at]));
                assert(below(rows[at - 1], cursor));
            }
        }
        assert(range(rows, lower, cursor) =~= all.take(all.len() - taken));
        assert(all.take(all.len() - taken).reverse() =~= all.reverse().skip(taken));
    } else {
        let at = start + taken - 1;
        let last = rows[at];
        assert(all[taken - 1] == last);
        assert(count_before(rows, cursor) == at + 1) by {
            lemma_row_total(last, last);
            assert(!above(rows[at], cursor));
            if at + 1 < rows.len() {
                assert(row_lt(rows[at], rows[at + 1]));
                assert(above(rows[at + 1], cursor));
            }
        }
        assert(range(rows, cursor, upper) =~= all.skip(taken));
    }
}

} // verus!
