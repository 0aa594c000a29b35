//! Byte keys: the order in which an index holds them, and the fixed-width
//! big-endian form of numbers, whose byte order is the order of the numbers.

use vstd::prelude::*;

verus! {

/// Whether `a` comes before `b` byte by byte, given that they agree before
/// position `from`.
pub open spec fn lex_lt_from(a: Seq<u8>, b: Seq<u8>, from: int) -> bool
    decreases a.len() - from,
{
    if from < 0 || from >= b.len() {
        false
    } else if from >= a.len() {
        true
    } else if a[from] != b[from] {
        a[from] < b[from]
    } else {
        lex_lt_from(a, b, from + 1)
    }
}

/// Lexicographic order on byte strings, bytes taken as unsigned: at the
/// first position where the two differ the smaller byte decides, and a
/// string comes before every longer one that it begins.
pub open spec fn lex_lt(a: Seq<u8>, b: Seq<u8>) -> bool {
    lex_lt_from(a, b, 0)
}

pub open spec fn lex_le(a: Seq<u8>, b: Seq<u8>) -> bool {
    a == b || lex_lt(a, b)
}

/// One row of an index: the encoded value, then the id of the entity.
pub type Row = (Seq<u8>, u64);

/// The order of index rows: by key, rows of one key by id.
pub open spec fn row_lt(x: Row, y: Row) -> bool {
    lex_lt(x.0, y.0) || (x.0 == y.0 && x.1 < y.1)
}

pub proof fn lemma_lex_from_total(a: Seq<u8>, b: Seq<u8>, from: int)
    requires
        0 <= from <= a.len(),
        from <= b.len(),
        forall|j: int| 0 <= j < from ==> a[j] == b[j],
    ensures
        lex_lt_from(a, b, from) || a == b || lex_lt_from(b, a, from),
        !(lex_lt_from(a, b, from) && lex_lt_from(b, a, from)),
        a == b ==> !lex_lt_from(a, b, from),
    decreases a.len() - from,
{
    if from < a.len() && from < b.len() && a[from] == b[from] {
        lemma_lex_from_total(a, b, from + 1);
    } else if from == a.len() && from == b.len() {
        assert(a =~= b);
    }
}

/// Of two byte strings exactly one holds: the first comes before the
/// second, they are equal, or the second comes before the first.
pub proof fn lemma_lex_total(a: Seq<u8>, b: Seq<u8>)
    ensures
        lex_lt(a, b) || a == b || lex_lt(b, a),
        !(lex_lt(a, b) && lex_lt(b, a)),
        !lex_lt(a, a),
        a == b ==> !lex_lt(a, b),
{
    lemma_lex_from_total(a, b, 0);
    lemma_lex_from_total(a, a, 0);
}

pub proof fn lemma_lex_from_transitive(a: Seq<u8>, b: Seq<u8>, c: Seq<u8>, from: int)
    requires
        0 <= from,
        lex_lt_from(a, b, from),
        lex_lt_from(b, c, from),
    ensures
        lex_lt_from(a, c, from),
    decreases a.len() - from,
{
    if from < a.len() && from < b.len() && from < c.len() && a[from] == b[from] && b[from]
        == c[from] {
        lemma_lex_from_transitive(a, b, c, from + 1);
    }
}

/// The order on byte strings is transitive.
pub proof fn lemma_lex_transitive(a: Seq<u8>, b: Seq<u8>, c: Seq<u8>)
    requires
        lex_lt(a, b),
        lex_lt(b, c),
    ensures
        lex_lt(a, c),
{
    lemma_lex_from_transitive(a, b, c, 0);
}

/// The order on rows is a strict total order.
pub proof fn lemma_row_total(x: Row, y: Row)
    ensures
        row_lt(x, y) || x == y || row_lt(y, x),
        !(row_lt(x, y) && row_lt(y, x)),
        !row_lt(x, x),
{
    lemma_lex_total(x.0, y.0);
    lemma_lex_total(x.0, x.0);
}

pub proof fn lemma_row_transitive(x: Row, y: Row, z: Row)
    requires
        row_lt(x, y),
        row_lt(y, z),
    ensures
        row_lt(x, z),
{
    lemma_lex_total(x.0, y.0);
    lemma_lex_total(y.0, z.0);
    if lex_lt(x.0, y.0) && lex_lt(y.0, z.0) {
        lemma_lex_transitive(x.0, y.0, z.0);
    }
}

/// How one key stands to another.
#[derive(PartialEq, Eq, Structural, Clone, Copy, Debug)]
pub enum Side {
    Before,
    Same,
    After,
}

/// Compares two keys byte by byte.
pub fn side_of(a: &Vec<u8>, b: &Vec<u8>) -> (side: Side)
    ensures
        side == Side::Before <==> lex_lt(a@, b@),
        side == Side::Same <==> a@ == b@,
        side == Side::After <==> lex_lt(b@, a@),
{
    proof {
        lemma_lex_total(a@, b@);
    }
    let mut i: usize = 0;
    while i < a.len() && i < b.len()
        invariant
            i <= a@.len(),
            i <= b@.len(),
            forall|j: int| 0 <= j < i ==> a@[j] == b@[j],
            lex_lt(a@, b@) == lex_lt_from(a@, b@, i as int),
            lex_lt(b@, a@) == lex_lt_from(b@, a@, i as int),
        decreases a@.len() - i,
    {
        if a[i] < b[i] {
            return Side::Before;
        }
        if a[i] > b[i] {
            return Side::After;
        }
        i = i + 1;
    }
    if i < b.len() {
        Side::Before
    } else if i < a.len() {
        Side::After
    } else {
        assert(a@ =~= b@);
        Side::Same
    }
}

/// `count` zero bytes.
pub open spec fn zeros(count: nat) -> Seq<u8> {
    Seq::new(count, |i: int| 0u8)
}

/// 256 to the power `width`: how many numbers `width` bytes can tell apart.
pub open spec fn span(width: nat) -> nat
    decreases width,
{
    if width == 0 {
        1
    } else {
        256 * span((width - 1) as nat)
    }
}

/// The `width` low bytes of `x`, most significant first.
pub open spec fn be_bytes(x: nat, width: nat) -> Seq<u8>
    decreases width,
{
    if width == 0 {
        Seq::empty()
    } else {
        be_bytes(x / 256, (width - 1) as nat).push((x % 256) as u8)
    }
}

/// The number that `bytes` write, most significant byte first.
pub open spec fn be_value(bytes: Seq<u8>) -> nat
    decreases bytes.len(),
{
    if bytes.len() == 0 {
        0
    } else {
        be_value(bytes.drop_last()) * 256 + bytes.last() as nat
    }
}

pub proof fn lemma_span_values()
    ensures
        span(0) == 1,
        span(1) == 0x100,
        span(2) == 0x1_0000,
        span(4) == 0x1_0000_0000,
        span(8) == 0x1_0000_0000_0000_0000,
        span(16) == 0x1_0000_0000_0000_0000_0000_0000_0000_0000,
{
    assert(span(1) == 256 * span(0));
    assert(span(2) == 256 * span(1));
    assert(span(3) == 256 * span(2));
    assert(span(4) == 256 * span(3));
    assert(span(5) == 256 * span(4));
    assert(span(6) == 256 * span(5));
    assert(span(7) == 256 * span(6));
    assert(span(8) == 256 * span(7));
    assert(span(9) == 256 * span(8));
    assert(span(10) == 256 * span(9));
    assert(span(11) == 256 * span(10));
    assert(span(12) == 256 * span(11));
    assert(span(13) == 256 * span(12));
    assert(span(14) == 256 * span(13));
    assert(span(15) == 256 * span(14));
    assert(span(16) == 256 * span(15));
}

pub proof fn lemma_span_grows(small: nat, large: nat)
    requires
        small <= large,
    ensures
        0 < span(small) <= span(large),
    decreases large,
{
    if small < large {
        lemma_span_grows(small, (large - 1) as nat);
    } else if large > 0 {
        lemma_span_grows((small - 1) as nat, (large - 1) as nat);
    }
}

pub proof fn lemma_be_bytes_len(x: nat, width: nat)
    ensures
        be_bytes(x, width).len() == width,
    decreases width,
{
    if width > 0 {
        lemma_be_bytes_len(x / 256, (width - 1) as nat);
    }
}

/// Reading back what was written gives the number, where it fits the width.
pub proof fn lemma_be_value_of_bytes(x: nat, width: nat)
    requires
        x < span(width),
    ensures
        be_value(be_bytes(x, width)) == x,
    decreases width,
{
    if width > 0 {
        let rest = be_bytes(x / 256, (width - 1) as nat);
        lemma_be_value_of_bytes(x / 256, (width - 1) as nat);
        lemma_be_bytes_len(x / 256, (width - 1) as nat);
        assert(be_bytes(x, width).drop_last() =~= rest);
    }
}

/// Writing what was read gives the bytes back.
pub proof fn lemma_be_bytes_of_value(bytes: Seq<u8>)
    ensures
        be_value(bytes) < span(bytes.len()),
        be_bytes(be_value(bytes), bytes.len()) == bytes,
    decreases bytes.len(),
{
    if bytes.len() > 0 {
        lemma_be_bytes_of_value(bytes.drop_last());
        let x = be_value(bytes);
        assert(x / 256 == be_value(bytes.drop_last()));
        assert(x % 256 == bytes.last() as nat);
        assert(be_bytes(x, bytes.len()) =~= bytes);
    }
}

pub proof fn lemma_lex_push_from(a: Seq<u8>, b: Seq<u8>, p: u8, q: u8, from: int)
    requires
        a.len() == b.len(),
        0 <= from <= a.len(),
    ensures
        lex_lt_from(a.push(p), b.push(q), from) == (lex_lt_from(a, b, from) || ((forall|j: int|
            from <= j < a.len() ==> a[j] == b[j]) && p < q)),
    decreases a.len() - from,
{
    let ap = a.push(p);
    let bq = b.push(q);
    let agree = forall|j: int| from <= j < a.len() ==> a[j] == b[j];
    if from < a.len() {
        lemma_lex_push_from(a, b, p, q, from + 1);
        assert(ap[from] == a[from]);
        assert(bq[from] == b[from]);
        if a[from] == b[from] {
            let later = forall|j: int| from + 1 <= j < a.len() ==> a[j] == b[j];
            assert(agree == later) by {
                if later {
                    assert forall|j: int| from <= j < a.len() implies a[j] == b[j] by {
                        if j > from {
                        }
                    }
                }
            }
        } else {
            assert(!agree);
        }
    } else {
        assert(ap[from] == p);
        assert(bq[from] == q);
        assert(!lex_lt_from(ap, bq, from + 1));
        assert(!lex_lt_from(a, b, from));
    }
}

/// Among numbers that fit the width, the smaller one has the earlier bytes.
pub proof fn lemma_be_bytes_order(x: nat, y: nat, width: nat)
    requires
        x < y < span(width),
    ensures
        lex_lt(be_bytes(x, width), be_bytes(y, width)),
    decreases width,
{
    if width > 0 {
        let a = be_bytes(x / 256, (width - 1) as nat);
        let b = be_bytes(y / 256, (width - 1) as nat);
        lemma_be_bytes_len(x / 256, (width - 1) as nat);
        lemma_be_bytes_len(y / 256, (width - 1) as nat);
        lemma_lex_push_from(a, b, (x % 256) as u8, (y % 256) as u8, 0);
        if x / 256 < y / 256 {
            lemma_be_bytes_order(x / 256, y / 256, (width - 1) as nat);
        } else {
            assert(x / 256 == y / 256);
            assert(a == b);
        }
    }
}

/// Byte order is number order: among numbers that fit the width, one comes
/// before another exactly when its bytes do.
pub proof fn lemma_be_bytes_monotone(x: nat, y: nat, width: nat)
    requires
        x < span(width),
        y < span(width),
    ensures
        x < y <==> lex_lt(be_bytes(x, width), be_bytes(y, width)),
        x == y <==> be_bytes(x, width) == be_bytes(y, width),
{
    lemma_lex_total(be_bytes(x, width), be_bytes(y, width));
    if x < y {
        lemma_be_bytes_order(x, y, width);
    } else if y < x {
        lemma_be_bytes_order(y, x, width);
    }
}

/// Writes the `width` low bytes of `x`, most significant first.
pub fn be_encode(x: u128, width: usize) -> (bytes: Vec<u8>)
    ensures
        bytes@ == be_bytes(x as nat, width as nat),
    decreases width,
{
    if width == 0 {
        Vec::new()
    } else {
        let mut bytes = be_encode(x / 256, width - 1);
        bytes.push((x % 256) as u8);
        bytes
    }
}

/// Reads the number that at most sixteen bytes write.
pub fn be_decode(bytes: &Vec<u8>) -> (x: u128)
    requires
        bytes@.len() <= 16,
    ensures
        x == be_value(bytes@),
{
    let mut x: u128 = 0;
    let mut i: usize = 0;
    while i < bytes.len()
        invariant
            i <= bytes@.len() <= 16,
            x == be_value(bytes@.take(i as int)),
        decreases bytes@.len() - i,
    {
        proof {
            let next = bytes@.take(i + 1);
            assert(next.drop_last() =~= bytes@.take(i as int));
            lemma_be_bytes_of_value(next);
            lemma_span_grows(next.len(), 16);
            lemma_span_values();
        }
        x = x * 256 + bytes[i] as u128;
        i = i + 1;
    }
    assert(bytes@.take(i as int) =~= bytes@);
    x
}

/// `content`, then zero bytes up to `target` bytes in all.
pub open spec fn padded(content: Seq<u8>, target: nat) -> Seq<u8> {
    content + zeros((target - content.len()) as nat)
}

pub proof fn lemma_padded_from(a: Seq<u8>, b: Seq<u8>, width: nat, from: int)
    requires
        a.len() <= width,
        b.len() <= width,
        0 <= from,
        lex_lt_from(padded(a, width), padded(b, width), from),
    ensures
        lex_lt_from(a, b, from),
    decreases width - from,
{
    let pa = padded(a, width);
    let pb = padded(b, width);
    if from < width {
        if from < a.len() {
            assert(pa[from] == a[from]);
        } else {
            assert(pa[from] == 0);
        }
        if from < b.len() {
            assert(pb[from] == b[from]);
        } else {
            assert(pb[from] == 0);
        }
        if pa[from] == pb[from] {
            lemma_padded_from(a, b, width, from + 1);
        }
    }
}

/// Padding keeps the order of what it pads: where one padded key comes
/// before another, so does its content; and no two contents come out in
/// the opposite order. Contents that differ only in zero bytes at the end
/// share a key.
pub proof fn lemma_padding_keeps_order(a: Seq<u8>, b: Seq<u8>, width: nat)
    requires
        a.len() <= width,
        b.len() <= width,
    ensures
        lex_lt(padded(a, width), padded(b, width)) ==> lex_lt(a, b),
        lex_lt(a, b) ==> !lex_lt(padded(b, width), padded(a, width)),
        padded(a, width).len() == width,
{
    if lex_lt(padded(a, width), padded(b, width)) {
        lemma_padded_from(a, b, width, 0);
    }
    if lex_lt(padded(b, width), padded(a, width)) {
        lemma_padded_from(b, a, width, 0);
        lemma_lex_total(a, b);
    }
}

} // verus!
