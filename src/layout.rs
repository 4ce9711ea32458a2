use vstd::prelude::*;

use crate::diagram::{participants_view, row_view, timeline_view, DiagramView, EventView, SequenceDiagram};
use crate::message::MessageView;
use crate::participant::participant_width;
use vstd::relations::{antisymmetric, reflexive, sorted_by, strongly_connected, total_ordering, transitive};

verus! {

/// Width of a text of `len` bytes at the given font size.
pub open spec fn text_width(len: nat, font_size: nat) -> nat {
    len * font_size * 9 / 14
}

/// Length in bytes of the UTF-8 encoding of `s`.
pub open spec fn byte_len(s: Seq<char>) -> nat {
    vstd::utf8::encode_utf8(s).len()
}

/// Measured width of `s` at `font_size`: nine fourteenths of the font size per byte of
/// its UTF-8 encoding.
pub fn string_width(s: &str, font_size: u32) -> (r: u128)
    ensures
        r == text_width(byte_len(s@), font_size as nat),
        r < 0x1_0000_0000_0000_0000_0000_0000u128,
{
    let bytes = s.as_bytes();
    width_of_len(bytes.len(), font_size)
}

/// Width of a text of `len` bytes at `font_size`.
pub fn width_of_len(len: usize, font_size: u32) -> (r: u128)
    ensures
        r == text_width(len as nat, font_size as nat),
        r < 0x1_0000_0000_0000_0000_0000_0000u128,
{
    let n: u128 = len as u128;
    let f: u128 = font_size as u128;
    proof {
        assert(n * f <= 0x1_0000_0000_0000_0000u128 * 0x1_0000_0000u128) by (nonlinear_arith)
            requires n < 0x1_0000_0000_0000_0000u128, f < 0x1_0000_0000u128;
    }
    let w = n * f * 9 / 14;
    proof {
        assert(n * f * 9 / 14 <= n * f) by (nonlinear_arith)
            requires n >= 0, f >= 0;
    }
    w
}

} // verus!

verus! {

/// Space between consecutive rows, and above the first.
pub const ROW_MARGIN: u32 = 20;

/// A declared minimum horizontal distance `width` between the column boundaries
/// `left_col` and `right_col`.
#[derive(Clone, Copy, Debug, PartialEq, Eq, Structural)]
pub struct ReservedWidth {
    pub left_col: usize,
    pub right_col: usize,
    pub width: u128,
}

/// The constraint of `width` between two columns, whichever order they come in.
pub open spec fn spec_reserved(col1: usize, col2: usize, width: u128) -> ReservedWidth {
    if col1 < col2 {
        ReservedWidth { left_col: col1, right_col: col2, width }
    } else {
        ReservedWidth { left_col: col2, right_col: col1, width }
    }
}

impl ReservedWidth {
    /// The constraint between the two columns, whichever order they come in.
    pub fn new(col1: usize, col2: usize, width: u128) -> (r: ReservedWidth)
        ensures
            r == spec_reserved(col1, col2, width),
    {
        if col1 < col2 {
            ReservedWidth { left_col: col1, right_col: col2, width }
        } else {
            ReservedWidth { left_col: col2, right_col: col1, width }
        }
    }

    pub fn col_distance(&self) -> (r: usize)
        requires
            self.left_col <= self.right_col,
        ensures
            r == self.right_col - self.left_col,
    {
        self.right_col - self.left_col
    }
}

/// Sort key of a constraint: its span, then its left column (then its width, which
/// does not change the outcome).
pub type SortKey = (usize, usize, u128);

pub open spec fn key_of(rw: ReservedWidth) -> SortKey {
    ((rw.right_col - rw.left_col) as usize, rw.left_col, rw.width)
}

pub open spec fn from_key(k: SortKey) -> ReservedWidth {
    ReservedWidth { left_col: k.1, right_col: (k.1 + k.0) as usize, width: k.2 }
}

/// Lexicographic order on sort keys.
pub open spec fn key_leq(a: SortKey, b: SortKey) -> bool {
    a.0 < b.0 || (a.0 == b.0 && (a.1 < b.1 || (a.1 == b.1 && a.2 <= b.2)))
}

pub open spec fn key_order() -> spec_fn(SortKey, SortKey) -> bool {
    |a: SortKey, b: SortKey| key_leq(a, b)
}

/// The order in which constraints are resolved: ascending span, ties by ascending left column.
pub open spec fn resolution_order(rws: Seq<ReservedWidth>) -> Seq<ReservedWidth> {
    rws.map_values(|rw: ReservedWidth| key_of(rw)).sort_by(key_order()).map_values(
        |k: SortKey| from_key(k),
    )
}

pub open spec fn as_ints(v: Seq<u32>) -> Seq<int> {
    v.map_values(|x: u32| x as int)
}

pub open spec fn nondecreasing(s: Seq<int>) -> bool {
    forall|i: int, j: int| 0 <= i <= j < s.len() ==> s[i] <= s[j]
}

pub open spec fn strictly_increasing(s: Seq<int>) -> bool {
    forall|i: int, j: int| 0 <= i < j < s.len() ==> s[i] < s[j]
}

/// Position of the centre of participant `i`, before any constraint is resolved:
/// half of the first width, then half of each pair of neighbouring widths.
pub open spec fn col_pos(ws: Seq<nat>, i: int) -> int
    decreases i,
{
    if i <= 0 {
        (ws[0] / 2) as int
    } else {
        col_pos(ws, i - 1) + ((ws[i - 1] + ws[i]) / 2) as int
    }
}

/// Column boundaries from participant widths alone: a left margin at 0, the centre of
/// each participant, and a right margin half the last width beyond the last centre.
pub open spec fn initial_cols(ws: Seq<nat>) -> Seq<int> {
    if ws.len() == 0 {
        seq![0int]
    } else {
        Seq::new(
            ws.len() + 2,
            |k: int|
                if k == 0 {
                    0
                } else if k <= ws.len() {
                    col_pos(ws, k - 1)
                } else {
                    col_pos(ws, ws.len() - 1) + (ws.last() / 2) as int
                },
        )
    }
}

/// How much the distance between the constraint's columns falls short of its width.
pub open spec fn shortfall(cols: Seq<int>, rw: ReservedWidth) -> int {
    rw.width - (cols[rw.right_col as int] - cols[rw.left_col as int])
}

/// `cols` with every boundary at or right of `from` moved right by `by`.
pub open spec fn shifted(cols: Seq<int>, from: int, by: int) -> Seq<int> {
    Seq::new(cols.len(), |k: int| if k >= from { cols[k] + by } else { cols[k] })
}

/// Resolves one constraint: where its columns are too close, every boundary at or
/// right of its right column moves right by the shortfall.
pub open spec fn apply_reserved(cols: Seq<int>, rw: ReservedWidth) -> Seq<int> {
    if shortfall(cols, rw) > 0 {
        shifted(cols, rw.right_col as int, shortfall(cols, rw))
    } else {
        cols
    }
}

/// Resolves the constraints one after another, in the order given.
pub open spec fn apply_all(cols: Seq<int>, rws: Seq<ReservedWidth>) -> Seq<int>
    decreases rws.len(),
{
    if rws.len() == 0 {
        cols
    } else {
        apply_reserved(apply_all(cols, rws.drop_last()), rws.last())
    }
}

/// Final column boundaries for participant widths `ws` and declared constraints `rws`.
pub open spec fn grid_cols(ws: Seq<nat>, rws: Seq<ReservedWidth>) -> Seq<int> {
    apply_all(initial_cols(ws), resolution_order(rws))
}

/// Whether every constraint names two existing boundaries of `n` columns, left first.
pub open spec fn in_range(rws: Seq<ReservedWidth>, n: nat) -> bool {
    forall|i: int| 0 <= i < rws.len() ==> (#[trigger] rws[i]).left_col <= rws[i].right_col < n
}

pub proof fn lemma_key_order_total()
    ensures
        total_ordering(key_order()),
{
    let r = key_order();
    assert(reflexive(r));
    assert(antisymmetric(r));
    assert(transitive(r));
    assert(strongly_connected(r));
}

pub proof fn lemma_col_pos_mono(ws: Seq<nat>, i: int, j: int)
    requires
        0 <= i <= j < ws.len(),
    ensures
        col_pos(ws, i) <= col_pos(ws, j),
    decreases j - i,
{
    if i < j {
        lemma_col_pos_mono(ws, i, j - 1);
    }
}

pub proof fn lemma_initial_cols_shape(ws: Seq<nat>)
    ensures
        initial_cols(ws).len() == if ws.len() == 0 { 1 } else { ws.len() + 2 },
        nondecreasing(initial_cols(ws)),
        forall|k: int|
            0 <= k < initial_cols(ws).len() ==> #[trigger] initial_cols(ws)[k] >= 0,
        (forall|k: int| 0 <= k < ws.len() ==> #[trigger] ws[k] >= 2) ==> strictly_increasing(
            initial_cols(ws),
        ),
{
    let c = initial_cols(ws);
    if ws.len() > 0 {
        assert forall|i: int, j: int| 0 <= i <= j < c.len() implies c[i] <= c[j] by {
            if i == j {
            } else if 0 < i && j <= ws.len() {
                lemma_col_pos_mono(ws, i - 1, j - 1);
            } else if 0 < i {
                lemma_col_pos_mono(ws, i - 1, ws.len() - 1);
            } else if 0 < j {
                lemma_col_pos_mono(ws, 0, if j <= ws.len() { j - 1 } else { ws.len() - 1 });
            }
        }
        assert forall|k: int| 0 <= k < c.len() implies #[trigger] c[k] >= 0 by {
            assert(c[0] <= c[k]);
        }
        if forall|k: int| 0 <= k < ws.len() ==> #[trigger] ws[k] >= 2 {
            assert forall|i: int, j: int| 0 <= i < j < c.len() implies c[i] < c[j] by {
                if 0 < i && j <= ws.len() {
                    lemma_col_pos_mono(ws, i, j - 1);
                    assert(col_pos(ws, i) == col_pos(ws, i - 1) + ((ws[i - 1] + ws[i]) / 2) as int);
                } else if 0 < i {
                    lemma_col_pos_mono(ws, i - 1, ws.len() - 1);
                } else {
                    lemma_col_pos_mono(ws, 0, if j <= ws.len() { j - 1 } else { ws.len() - 1 });
                }
            }
        }
    }
}


/// Resolving one constraint keeps the boundaries in order, moves none of them left, and
/// narrows no distance; it widens only distances across its right column, and leaves its
/// own columns at least its width apart when they differ.
pub proof fn lemma_apply_reserved(cols: Seq<int>, rw: ReservedWidth)
    requires
        nondecreasing(cols),
        rw.left_col <= rw.right_col < cols.len(),
    ensures
        apply_reserved(cols, rw).len() == cols.len(),
        nondecreasing(apply_reserved(cols, rw)),
        strictly_increasing(cols) ==> strictly_increasing(apply_reserved(cols, rw)),
        forall|k: int| 0 <= k < cols.len() ==> #[trigger] apply_reserved(cols, rw)[k] >= cols[k],
        forall|i: int, j: int|
            0 <= i <= j < cols.len() ==> apply_reserved(cols, rw)[j] - apply_reserved(cols, rw)[i]
                >= cols[j] - cols[i],
        forall|i: int, j: int|
            0 <= i <= j < cols.len() && !(i < rw.right_col <= j) ==> apply_reserved(cols, rw)[j]
                - apply_reserved(cols, rw)[i] == cols[j] - cols[i],
        rw.left_col < rw.right_col ==> apply_reserved(cols, rw)[rw.right_col as int]
            - apply_reserved(cols, rw)[rw.left_col as int] >= rw.width,
        apply_reserved(cols, rw)[cols.len() - 1] == cols[cols.len() - 1] + if shortfall(cols, rw)
            > 0 {
            shortfall(cols, rw)
        } else {
            0
        },
{
}

pub proof fn lemma_apply_all_append(cols: Seq<int>, a: Seq<ReservedWidth>, b: Seq<ReservedWidth>)
    ensures
        apply_all(cols, a + b) == apply_all(apply_all(cols, a), b),
    decreases b.len(),
{
    if b.len() == 0 {
        assert(a + b =~= a);
    } else {
        assert((a + b).drop_last() =~= a + b.drop_last());
        lemma_apply_all_append(cols, a, b.drop_last());
    }
}

/// Resolving constraints in any order keeps the boundaries in order, moves none of them
/// left and narrows no distance.
pub proof fn lemma_apply_all(cols: Seq<int>, rws: Seq<ReservedWidth>)
    requires
        nondecreasing(cols),
        in_range(rws, cols.len()),
    ensures
        apply_all(cols, rws).len() == cols.len(),
        nondecreasing(apply_all(cols, rws)),
        strictly_increasing(cols) ==> strictly_increasing(apply_all(cols, rws)),
        forall|k: int| 0 <= k < cols.len() ==> #[trigger] apply_all(cols, rws)[k] >= cols[k],
        forall|i: int, j: int|
            0 <= i <= j < cols.len() ==> apply_all(cols, rws)[j] - apply_all(cols, rws)[i]
                >= cols[j] - cols[i],
    decreases rws.len(),
{
    if rws.len() > 0 {
        let prev = apply_all(cols, rws.drop_last());
        assert(in_range(rws.drop_last(), cols.len())) by {
            assert forall|i: int| 0 <= i < rws.drop_last().len() implies (#[trigger] rws.drop_last()[i]).left_col
                <= rws.drop_last()[i].right_col < cols.len() by {
                assert(rws.drop_last()[i] == rws[i]);
            }
        }
        lemma_apply_all(cols, rws.drop_last());
        assert(rws.last() == rws[rws.len() - 1]);
        lemma_apply_reserved(prev, rws.last());
        let next = apply_all(cols, rws);
        assert forall|i: int, j: int| 0 <= i <= j < cols.len() implies next[j] - next[i] >= cols[j]
            - cols[i] by {
            assert(prev[j] - prev[i] >= cols[j] - cols[i]);
        }
        assert forall|k: int| 0 <= k < cols.len() implies #[trigger] next[k] >= cols[k] by {
            assert(prev[k] >= cols[k]);
        }
    }
}

/// Every constraint between two distinct columns holds once all are resolved, in
/// whatever order.
pub proof fn lemma_apply_all_meets(cols: Seq<int>, rws: Seq<ReservedWidth>, k: int)
    requires
        nondecreasing(cols),
        in_range(rws, cols.len()),
        0 <= k < rws.len(),
        rws[k].left_col < rws[k].right_col,
    ensures
        apply_all(cols, rws)[rws[k].right_col as int] - apply_all(cols, rws)[rws[k].left_col as int]
            >= rws[k].width,
{
    let a = rws.take(k + 1);
    let b = rws.skip(k + 1);
    assert(rws =~= a + b);
    lemma_apply_all_append(cols, a, b);
    assert(in_range(a.drop_last(), cols.len())) by {
        assert forall|i: int| 0 <= i < a.drop_last().len() implies (#[trigger] a.drop_last()[i]).left_col
            <= a.drop_last()[i].right_col < cols.len() by {
            assert(a.drop_last()[i] == rws[i]);
        }
    }
    lemma_apply_all(cols, a.drop_last());
    let prev = apply_all(cols, a.drop_last());
    assert(a.last() == rws[k]);
    lemma_apply_reserved(prev, rws[k]);
    let mid = apply_all(cols, a);
    lemma_apply_all(cols, a);
    assert(in_range(b, cols.len())) by {
        assert forall|i: int| 0 <= i < b.len() implies (#[trigger] b[i]).left_col <= b[i].right_col
            < cols.len() by {
            assert(b[i] == rws[k + 1 + i]);
        }
    }
    lemma_apply_all(mid, b);
}


/// Relies on `itertools::Itertools::sorted`: it hands back the same items, each as often
/// as it came, in ascending order of std's lexicographic order on tuples.
#[verifier::external_body]
fn sort_keys(keys: Vec<SortKey>) -> (r: Vec<SortKey>)
    ensures
        r@.to_multiset() == keys@.to_multiset(),
        sorted_by(r@, key_order()),
{
    itertools::Itertools::sorted(keys.into_iter()).collect()
}

/// The constraints in the order in which they are resolved.
pub fn sorted_for_resolution(rws: &Vec<ReservedWidth>) -> (r: Vec<ReservedWidth>)
    requires
        forall|i: int| 0 <= i < rws@.len() ==> (#[trigger] rws@[i]).left_col <= rws@[i].right_col,
    ensures
        r@ == resolution_order(rws@),
{
    let mut keys: Vec<SortKey> = Vec::new();
    let mut i: usize = 0;
    while i < rws.len()
        invariant
            i <= rws@.len(),
            keys@ == rws@.take(i as int).map_values(|rw: ReservedWidth| key_of(rw)),
            forall|i: int| 0 <= i < rws@.len() ==> (#[trigger] rws@[i]).left_col <= rws@[i].right_col,
        decreases rws@.len() - i,
    {
        let rw = rws[i];
        keys.push((rw.right_col - rw.left_col, rw.left_col, rw.width));
        assert(rws@.take(i as int + 1) =~= rws@.take(i as int).push(rw));
        assert(keys@ =~= rws@.take(i as int + 1).map_values(|rw: ReservedWidth| key_of(rw)));
        i = i + 1;
    }
    assert(rws@.take(i as int) =~= rws@);
    let sorted = sort_keys(keys);
    proof {
        lemma_key_order_total();
        keys@.lemma_sort_by_ensures(key_order());
        vstd::seq_lib::lemma_sorted_unique(sorted@, keys@.sort_by(key_order()), key_order());
        assert forall|k: int| 0 <= k < sorted@.len() implies (#[trigger] sorted@[k]).1 + sorted@[k].0
            <= usize::MAX by {
            vstd::seq_lib::to_multiset_contains(sorted@, sorted@[k]);
            vstd::seq_lib::to_multiset_contains(keys@, sorted@[k]);
            let m = choose|m: int| 0 <= m < keys@.len() && keys@[m] == sorted@[k];
            assert(keys@[m] == key_of(rws@[m]));
        }
    }
    let mut r: Vec<ReservedWidth> = Vec::new();
    let mut j: usize = 0;
    while j < sorted.len()
        invariant
            j <= sorted@.len(),
            forall|k: int| 0 <= k < sorted@.len() ==> (#[trigger] sorted@[k]).1 + sorted@[k].0 <= usize::MAX,
            r@ == sorted@.take(j as int).map_values(|k: SortKey| from_key(k)),
        decreases sorted@.len() - j,
    {
        let k = sorted[j];
        r.push(ReservedWidth { left_col: k.1, right_col: k.1 + k.0, width: k.2 });
        assert(sorted@.take(j as int + 1) =~= sorted@.take(j as int).push(k));
        assert(r@ =~= sorted@.take(j as int + 1).map_values(|k: SortKey| from_key(k)));
        j = j + 1;
    }
    assert(sorted@.take(j as int) =~= sorted@);
    r
}


/// The resolution order holds the declared constraints, each as often as declared.
pub proof fn lemma_resolution_order(rws: Seq<ReservedWidth>)
    requires
        forall|i: int| 0 <= i < rws.len() ==> (#[trigger] rws[i]).left_col <= rws[i].right_col,
    ensures
        resolution_order(rws).len() == rws.len(),
        forall|k: int| 0 <= k < rws.len() ==> rws.contains(#[trigger] resolution_order(rws)[k]),
        forall|m: int| 0 <= m < rws.len() ==> resolution_order(rws).contains(#[trigger] rws[m]),
{
    let keys = rws.map_values(|rw: ReservedWidth| key_of(rw));
    let sorted = keys.sort_by(key_order());
    lemma_key_order_total();
    keys.lemma_sort_by_ensures(key_order());
    vstd::seq_lib::to_multiset_len(sorted);
    vstd::seq_lib::to_multiset_len(keys);
    assert forall|k: int| 0 <= k < rws.len() implies rws.contains(#[trigger] resolution_order(rws)[k]) by {
        vstd::seq_lib::to_multiset_contains(sorted, sorted[k]);
        vstd::seq_lib::to_multiset_contains(keys, sorted[k]);
        let m = choose|m: int| 0 <= m < keys.len() && keys[m] == sorted[k];
        assert(from_key(keys[m]) == rws[m]);
        assert(resolution_order(rws)[k] == from_key(sorted[k]));
    }
    assert forall|m: int| 0 <= m < rws.len() implies resolution_order(rws).contains(#[trigger] rws[m]) by {
        vstd::seq_lib::to_multiset_contains(keys, keys[m]);
        vstd::seq_lib::to_multiset_contains(sorted, keys[m]);
        let k = choose|k: int| 0 <= k < sorted.len() && sorted[k] == keys[m];
        assert(from_key(keys[m]) == rws[m]);
        assert(resolution_order(rws)[k] == from_key(sorted[k]));
    }
}


pub open spec fn as_nats(v: Seq<u128>) -> Seq<nat> {
    v.map_values(|x: u128| x as nat)
}

/// Largest coordinate the grid can hold.
pub open spec fn fits(s: Seq<int>) -> bool {
    s.last() <= u32::MAX
}

/// Column boundaries from participant widths alone, or `None` where the last boundary
/// would not fit in 32 bits.
pub fn initial_columns(widths: &Vec<u128>) -> (r: Option<Vec<u32>>)
    requires
        forall|i: int| 0 <= i < widths@.len() ==> #[trigger] widths@[i] < 0x1_0000_0000_0000_0000_0000_0000_0000u128,
    ensures
        r is Some <==> fits(initial_cols(as_nats(widths@))),
        r matches Some(v) ==> as_ints(v@) == initial_cols(as_nats(widths@)),
{
    let ghost ws = as_nats(widths@);
    let n = widths.len();
    let mut cols: Vec<u32> = vec![0];
    if n == 0 {
        assert(as_ints(cols@) =~= initial_cols(ws));
        return Some(cols);
    }
    proof {
        lemma_initial_cols_shape(ws);
    }
    let mut y: u128 = 0;
    let mut idx: usize = 0;
    while idx < n
        invariant
            n == widths@.len() == ws.len() > 0,
            ws == as_nats(widths@),
            forall|i: int| 0 <= i < widths@.len() ==> #[trigger] widths@[i] < 0x1_0000_0000_0000_0000_0000_0000_0000u128,
            idx <= n,
            cols@.len() == idx + 1,
            y <= u32::MAX,
            idx > 0 ==> y == col_pos(ws, idx - 1),
            idx == 0 ==> y == 0,
            cols@[0] == 0,
            forall|k: int| 1 <= k <= idx ==> #[trigger] cols@[k] == col_pos(ws, k - 1),
        decreases n - idx,
    {
        let step = if idx == 0 {
            widths[0] / 2
        } else {
            (widths[idx - 1] + widths[idx]) / 2
        };
        let next = y + step;
        proof {
            assert(ws[idx as int] == widths@[idx as int] as nat);
            if idx > 0 {
                assert(ws[idx - 1] == widths@[idx - 1] as nat);
                assert(col_pos(ws, idx as int) == col_pos(ws, idx - 1) + ((ws[idx - 1] + ws[idx as int]) / 2) as int);
            }
            assert(next == col_pos(ws, idx as int));
        }
        if next > u32::MAX as u128 {
            proof {
                lemma_col_pos_mono(ws, idx as int, n - 1);
                assert(initial_cols(ws).last() == col_pos(ws, n - 1) + (ws.last() / 2) as int);
            }
            return None;
        }
        y = next;
        cols.push(y as u32);
        idx = idx + 1;
    }
    let last = y + widths[n - 1] / 2;
    if last > u32::MAX as u128 {
        return None;
    }
    cols.push(last as u32);
    assert(as_ints(cols@) =~= initial_cols(ws));
    Some(cols)
}

/// Resolves every constraint against `cols`, in resolution order, or `None` where the
/// last boundary would not fit in 32 bits.
pub fn resolve_columns(initial: Vec<u32>, rws: &Vec<ReservedWidth>) -> (r: Option<Vec<u32>>)
    requires
        initial@.len() >= 1,
        nondecreasing(as_ints(initial@)),
        in_range(rws@, initial@.len()),
    ensures
        r is Some <==> fits(apply_all(as_ints(initial@), resolution_order(rws@))),
        r matches Some(v) ==> as_ints(v@) == apply_all(as_ints(initial@), resolution_order(rws@)),
{
    let ghost init = as_ints(initial@);
    let order = sorted_for_resolution(rws);
    proof {
        lemma_resolution_order(rws@);
    }
    assert(in_range(order@, initial@.len())) by {
        assert forall|i: int| 0 <= i < order@.len() implies (#[trigger] order@[i]).left_col
            <= order@[i].right_col < initial@.len() by {
            assert(rws@.contains(order@[i]));
        }
    }
    let mut cols = initial;
    let n = cols.len();
    let mut i: usize = 0;
    while i < order.len()
        invariant
            n == cols@.len() == init.len() >= 1,
            init == as_ints(initial@),
            in_range(order@, n as nat),
            nondecreasing(init),
            order@ == resolution_order(rws@),
            i <= order@.len(),
            as_ints(cols@) == apply_all(init, order@.take(i as int)),
            nondecreasing(as_ints(cols@)),
        decreases order@.len() - i,
    {
        let rw = order[i];
        let ghost before = as_ints(cols@);
        assert(order@.take(i as int + 1).drop_last() =~= order@.take(i as int));
        assert(order@.take(i as int + 1).last() == rw);
        proof {
            lemma_apply_reserved(before, rw);
        }
        let dist = cols[rw.right_col] - cols[rw.left_col];
        if rw.width > dist as u128 {
            let missing = rw.width - dist as u128;
            if missing > (u32::MAX - cols[n - 1]) as u128 {
                proof {
                    let next = apply_all(init, order@.take(i as int + 1));
                    assert(shortfall(before, rw) == missing as int);
                    assert(next == apply_reserved(before, rw));
                    assert(order@ =~= order@.take(i as int + 1) + order@.skip(i as int + 1));
                    lemma_apply_all_append(init, order@.take(i as int + 1), order@.skip(i as int + 1));
                    assert(in_range(order@.take(i as int + 1), n as nat)) by {
                        assert forall|k: int| 0 <= k < order@.take(i as int + 1).len() implies (#[trigger] order@.take(i as int + 1)[k]).left_col
                            <= order@.take(i as int + 1)[k].right_col < n by {
                            assert(order@.take(i as int + 1)[k] == order@[k]);
                        }
                    }
                    lemma_apply_all(init, order@.take(i as int + 1));
                    assert(in_range(order@.skip(i as int + 1), n as nat)) by {
                        assert forall|k: int| 0 <= k < order@.skip(i as int + 1).len() implies (#[trigger] order@.skip(i as int + 1)[k]).left_col
                            <= order@.skip(i as int + 1)[k].right_col < n by {
                            assert(order@.skip(i as int + 1)[k] == order@[i + 1 + k]);
                        }
                    }
                    lemma_apply_all(next, order@.skip(i as int + 1));
                    assert(next.len() == n);
                    assert(next[n - 1] == before[n - 1] + missing);
                    assert(before[n - 1] == cols@[n - 1] as int);
                    assert(apply_all(next, order@.skip(i as int + 1))[n - 1] >= next[n - 1]);
                    assert(apply_all(init, order@) == apply_all(next, order@.skip(i as int + 1)));
                    assert(apply_all(init, order@).len() == n);
                    assert(!fits(apply_all(init, resolution_order(rws@))));
                }
                return None;
            }
            let m = missing as u32;
            let mut k: usize = rw.right_col;
            while k < n
                invariant
                    n == cols@.len() == before.len(),
                    rw.right_col <= k <= n,
                    before[n - 1] + m <= u32::MAX,
                    nondecreasing(before),
                    forall|j: int| 0 <= j < n ==> #[trigger] as_ints(cols@)[j] == if rw.right_col <= j < k {
                        before[j] + m
                    } else {
                        before[j]
                    },
                decreases n - k,
            {
                assert(as_ints(cols@)[k as int] == before[k as int]);
                assert(before[k as int] <= before[n - 1]);
                let v = cols[k] + m;
                let ghost prev = cols@;
                cols.set(k, v);
                assert forall|j: int| 0 <= j < n implies #[trigger] as_ints(cols@)[j] == if rw.right_col <= j < k + 1 {
                    before[j] + m
                } else {
                    before[j]
                } by {
                    if j != k {
                        assert(cols@[j] == prev[j]);
                        assert(as_ints(prev)[j] == prev[j] as int);
                    }
                }
                k = k + 1;
            }
            assert(as_ints(cols@) =~= apply_reserved(before, rw));
        } else {
            assert(as_ints(cols@) =~= apply_reserved(before, rw));
        }
        i = i + 1;
    }
    assert(order@.take(i as int) =~= order@);
    Some(cols)
}


/// Row boundaries for rows of heights `hs`: the first top at the margin, then for each
/// row its bottom, its height below its top, and the next top, a margin further down.
pub open spec fn row_bounds_of(hs: Seq<nat>) -> Seq<int>
    decreases hs.len(),
{
    if hs.len() == 0 {
        seq![ROW_MARGIN as int]
    } else {
        let b = row_bounds_of(hs.drop_last());
        b.push(b.last() + hs.last()).push(b.last() + hs.last() + ROW_MARGIN)
    }
}

pub proof fn lemma_row_bounds(hs: Seq<nat>)
    ensures
        row_bounds_of(hs).len() == 2 * hs.len() + 1,
        row_bounds_of(hs)[0] == ROW_MARGIN,
        forall|i: int|
            0 <= i < hs.len() ==> row_bounds_of(hs)[2 * i + 1] - row_bounds_of(hs)[2 * i]
                == #[trigger] hs[i],
        forall|i: int|
            0 <= i < hs.len() ==> #[trigger] row_bounds_of(hs)[2 * i + 2] - row_bounds_of(hs)[2 * i + 1]
                == ROW_MARGIN,
        nondecreasing(row_bounds_of(hs)),
        (forall|i: int| 0 <= i < hs.len() ==> #[trigger] hs[i] > 0) ==> strictly_increasing(
            row_bounds_of(hs),
        ),
    decreases hs.len(),
{
    if hs.len() > 0 {
        let rest = hs.drop_last();
        lemma_row_bounds(rest);
        let b = row_bounds_of(rest);
        let c = row_bounds_of(hs);
        assert forall|i: int| 0 <= i < b.len() implies #[trigger] c[i] == b[i] by {}
        assert forall|i: int| 0 <= i < hs.len() - 1 implies #[trigger] hs[i] == rest[i] by {}
        assert forall|i: int| 0 <= i < hs.len() implies c[2 * i + 1] - c[2 * i] == #[trigger] hs[i] by {
            if i < hs.len() - 1 {
                assert(c[2 * i + 1] == b[2 * i + 1]);
                assert(c[2 * i] == b[2 * i]);
                assert(b[2 * i + 1] - b[2 * i] == rest[i]);
            }
        }
        assert forall|i: int| 0 <= i < hs.len() implies #[trigger] c[2 * i + 2] - c[2 * i + 1] == ROW_MARGIN by {
            if i < hs.len() - 1 {
                assert(c[2 * i + 2] == b[2 * i + 2]);
                assert(c[2 * i + 1] == b[2 * i + 1]);
                assert(b[2 * i + 2] - b[2 * i + 1] == ROW_MARGIN);
            }
        }
        assert forall|i: int, j: int| 0 <= i <= j < c.len() implies c[i] <= c[j] by {
            if j < b.len() {
                assert(b[i] <= b[j]);
            } else {
                assert(b[0] <= b[b.len() - 1]);
                if i < b.len() {
                    assert(b[i] <= b[b.len() - 1]);
                }
            }
        }
        if forall|i: int| 0 <= i < hs.len() ==> #[trigger] hs[i] > 0 {
            assert(forall|i: int| 0 <= i < rest.len() ==> #[trigger] rest[i] > 0) by {
                assert forall|i: int| 0 <= i < rest.len() implies #[trigger] rest[i] > 0 by {
                    assert(hs[i] > 0);
                }
            }
            assert(hs[hs.len() - 1] > 0);
            assert forall|i: int, j: int| 0 <= i < j < c.len() implies c[i] < c[j] by {
                if j < b.len() {
                    assert(b[i] < b[j]);
                } else if i < b.len() {
                    assert(b[i] <= b[b.len() - 1]);
                }
            }
        }
    }
}

/// Rows bounds of a prefix of the rows are a prefix of the row bounds.
pub proof fn lemma_row_bounds_take(hs: Seq<nat>, k: int)
    requires
        0 <= k <= hs.len(),
    ensures
        forall|j: int| 0 <= j < 2 * k + 1 ==> #[trigger] row_bounds_of(hs)[j] == row_bounds_of(hs.take(k))[j],
    decreases hs.len(),
{
    if k < hs.len() {
        lemma_row_bounds(hs.drop_last());
        lemma_row_bounds_take(hs.drop_last(), k);
        assert(hs.drop_last().take(k) =~= hs.take(k));
    } else {
        assert(hs.take(k) =~= hs);
    }
}

/// Resolved grid: column boundaries (two outer margins around the participants' centres)
/// and alternating row tops and bottoms.
#[derive(Clone, Debug)]
pub struct GridSize {
    pub cols: Vec<u32>,
    pub row_bounds: Vec<u32>,
}

impl GridSize {
    pub open spec fn wf(self) -> bool {
        &&& self.cols@.len() >= 1
        &&& self.row_bounds@.len() % 2 == 1
        &&& nondecreasing(as_ints(self.row_bounds@))
    }

    /// A grid with no column but the left edge and no row, the first top at the margin.
    pub fn new() -> (r: GridSize)
        ensures
            r.cols@ == seq![0u32],
            r.row_bounds@ == seq![ROW_MARGIN],
            r.wf(),
    {
        let r = GridSize { row_bounds: vec![ROW_MARGIN], cols: vec![0] };
        r
    }

    pub fn num_rows(&self) -> (r: usize)
        ensures
            r == self.row_bounds@.len() / 2,
    {
        self.row_bounds.len() / 2
    }

    /// Centre of participant `col`.
    pub fn get_col_center(&self, col: usize) -> (r: u32)
        requires
            col + 1 < self.cols@.len(),
        ensures
            r == self.cols@[col + 1],
    {
        proof {
            assert(self.cols@.len() == self.cols.len());
        }
        self.cols[col + 1]
    }

    pub fn get_row_center(&self, row: usize) -> (r: u32)
        requires
            self.wf(),
            row < self.num_rows_spec(),
        ensures
            r == self.row_bounds@[2 * row] + (self.row_bounds@[2 * row + 1] - self.row_bounds@[2 * row]) / 2,
    {
        self.get_row_top(row) + self.get_row_height(row) / 2
    }

    pub open spec fn num_rows_spec(self) -> nat {
        self.row_bounds@.len() / 2
    }

    pub fn get_row_height(&self, row: usize) -> (r: u32)
        requires
            self.wf(),
            row < self.num_rows_spec(),
        ensures
            r == self.row_bounds@[2 * row + 1] - self.row_bounds@[2 * row],
    {
        assert(as_ints(self.row_bounds@)[2 * row] <= as_ints(self.row_bounds@)[2 * row + 1]);
        self.get_row_bottom(row) - self.get_row_top(row)
    }

    pub fn get_row_bottom(&self, row: usize) -> (r: u32)
        requires
            row < self.num_rows_spec(),
        ensures
            r == self.row_bounds@[2 * row + 1],
    {
        proof {
            assert(self.row_bounds@.len() == self.row_bounds.len());
        }
        self.row_bounds[row * 2 + 1]
    }

    pub fn get_row_top(&self, row: usize) -> (r: u32)
        requires
            2 * row < self.row_bounds@.len(),
        ensures
            r == self.row_bounds@[2 * row],
    {
        proof {
            assert(self.row_bounds@.len() == self.row_bounds.len());
        }
        self.row_bounds[row * 2]
    }

    /// Right edge of the diagram.
    pub fn width(&self) -> (r: u32)
        requires
            self.wf(),
        ensures
            r == self.cols@.last(),
    {
        self.cols[self.cols.len() - 1]
    }

    /// Bottom edge of the diagram.
    pub fn height(&self) -> (r: u32)
        requires
            self.wf(),
        ensures
            r == self.row_bounds@.last(),
    {
        self.row_bounds[self.row_bounds.len() - 1]
    }

    /// Appends a row of `height` below the last one, and the margin after it.
    pub fn add_row(&mut self, height: u32)
        requires
            old(self).wf(),
            old(self).row_bounds@.last() + height + ROW_MARGIN <= u32::MAX,
        ensures
            final(self).cols == old(self).cols,
            final(self).row_bounds@ == old(self).row_bounds@.push(
                (old(self).row_bounds@.last() + height) as u32,
            ).push((old(self).row_bounds@.last() + height + ROW_MARGIN) as u32),
            final(self).wf(),
    {
        let bottom = self.row_bounds[self.row_bounds.len() - 1] + height;
        self.row_bounds.push(bottom);
        self.row_bounds.push(bottom + ROW_MARGIN);
        assert(nondecreasing(as_ints(self.row_bounds@))) by {
            let o = as_ints(old(self).row_bounds@);
            let n = as_ints(self.row_bounds@);
            assert forall|i: int, j: int| 0 <= i <= j < n.len() implies n[i] <= n[j] by {
                if j < o.len() {
                    assert(n[i] == o[i] && n[j] == o[j]);
                } else if i < o.len() {
                    assert(n[i] == o[i]);
                    assert(o[i] <= o[o.len() - 1]);
                }
            }
        }
    }
}


/// Final column boundaries of a diagram.
pub open spec fn diagram_cols(d: DiagramView) -> Seq<int> {
    grid_cols(d.participant_widths(), d.reserved_widths())
}

/// Heights of the grid's rows: one per timeline row, then a footer row as tall as the first.
pub open spec fn grid_row_heights(d: DiagramView) -> Seq<nat> {
    d.row_heights().push(d.row_heights()[0])
}

/// Final row boundaries of a diagram.
pub open spec fn diagram_rows(d: DiagramView) -> Seq<int> {
    row_bounds_of(grid_row_heights(d))
}

/// Number of column boundaries of a diagram with `n` participants.
pub open spec fn col_count(n: nat) -> nat {
    if n == 0 {
        1
    } else {
        n + 2
    }
}

pub proof fn lemma_event_reserved_in_range(d: DiagramView, e: EventView)
    requires
        d.wf(),
        d.event_ok(e),
    ensures
        d.event_reserved_width(e) matches Some(rw) ==> rw.left_col <= rw.right_col < col_count(
            d.participants.len(),
        ),
{
}

pub proof fn lemma_row_reserved_in_range(d: DiagramView, evs: Seq<EventView>)
    requires
        d.wf(),
        forall|k: int| 0 <= k < evs.len() ==> d.event_ok(#[trigger] evs[k]),
    ensures
        in_range(d.row_reserved(evs), col_count(d.participants.len())),
    decreases evs.len(),
{
    if evs.len() > 0 {
        assert forall|k: int| 0 <= k < evs.len() - 1 implies d.event_ok(#[trigger] evs.drop_last()[k]) by {
            assert(evs.drop_last()[k] == evs[k]);
        }
        lemma_row_reserved_in_range(d, evs.drop_last());
        assert(d.event_ok(evs[evs.len() - 1]));
        lemma_event_reserved_in_range(d, evs.last());
    }
}

pub proof fn lemma_rows_reserved_in_range(d: DiagramView, rows: Seq<Seq<EventView>>)
    requires
        d.wf(),
        forall|r: int, k: int| 0 <= r < rows.len() && 0 <= k < rows[r].len() ==> d.event_ok(#[trigger] rows[r][k]),
    ensures
        in_range(d.rows_reserved(rows), col_count(d.participants.len())),
    decreases rows.len(),
{
    if rows.len() > 0 {
        assert forall|r: int, k: int| 0 <= r < rows.len() - 1 && 0 <= k < rows.drop_last()[r].len() implies d.event_ok(
            #[trigger] rows.drop_last()[r][k]) by {
            assert(rows.drop_last()[r] == rows[r]);
        }
        lemma_rows_reserved_in_range(d, rows.drop_last());
        assert forall|k: int| 0 <= k < rows.last().len() implies d.event_ok(#[trigger] rows.last()[k]) by {
            assert(rows.last() == rows[rows.len() - 1]);
        }
        lemma_row_reserved_in_range(d, rows.last());
    }
}

/// Every constraint a well-formed diagram declares names two of its column boundaries.
pub proof fn lemma_reserved_in_range(d: DiagramView)
    requires
        d.wf(),
    ensures
        in_range(d.reserved_widths(), initial_cols(d.participant_widths()).len()),
        initial_cols(d.participant_widths()).len() == col_count(d.participants.len()),
{
    lemma_rows_reserved_in_range(d, d.timeline);
    lemma_initial_cols_shape(d.participant_widths());
}

pub proof fn lemma_resolution_in_range(rws: Seq<ReservedWidth>, n: nat)
    requires
        in_range(rws, n),
    ensures
        in_range(resolution_order(rws), n),
{
    lemma_resolution_order(rws);
    assert forall|i: int| 0 <= i < resolution_order(rws).len() implies (#[trigger] resolution_order(rws)[i]).left_col
        <= resolution_order(rws)[i].right_col < n by {
        assert(rws.contains(resolution_order(rws)[i]));
    }
}

/// Every constraint the diagram declares, row by row.
pub fn collect_reserved_widths(d: &SequenceDiagram) -> (r: Vec<ReservedWidth>)
    requires
        d@.wf(),
    ensures
        r@ == d@.reserved_widths(),
{
    let timeline = d.get_timeline();
    let mut rws: Vec<ReservedWidth> = Vec::new();
    let mut i: usize = 0;
    while i < timeline.len()
        invariant
            d@.wf(),
            timeline_view(timeline@) == d@.timeline,
            i <= timeline@.len(),
            rws@ == d@.rows_reserved(d@.timeline.take(i as int)),
        decreases timeline@.len() - i,
    {
        let row = &timeline[i];
        assert(row_view(row@) == d@.timeline[i as int]);
        let mut k: usize = 0;
        while k < row.len()
            invariant
                d@.wf(),
                timeline_view(timeline@) == d@.timeline,
                i < timeline@.len(),
                row_view(row@) == d@.timeline[i as int],
                k <= row@.len(),
                rws@ == d@.rows_reserved(d@.timeline.take(i as int)) + d@.row_reserved(
                    d@.timeline[i as int].take(k as int),
                ),
            decreases row@.len() - k,
        {
            let ghost evs = d@.timeline[i as int];
            assert(row@[k as int]@ == evs[k as int]);
            assert(evs.take(k as int + 1).drop_last() =~= evs.take(k as int));
            assert(evs.take(k as int + 1).last() == evs[k as int]);
            let ghost before = rws@;
            match row[k].reserved_width(d) {
                Some(rw) => {
                    rws.push(rw);
                    assert(rws@ =~= d@.rows_reserved(d@.timeline.take(i as int)) + d@.row_reserved(
                        evs.take(k as int + 1)));
                },
                None => {
                    assert(rws@ =~= d@.rows_reserved(d@.timeline.take(i as int)) + d@.row_reserved(
                        evs.take(k as int + 1)));
                },
            }
            k = k + 1;
        }
        assert(d@.timeline[i as int].take(k as int) =~= d@.timeline[i as int]);
        assert(d@.timeline.take(i as int + 1).drop_last() =~= d@.timeline.take(i as int));
        assert(d@.timeline.take(i as int + 1).last() == d@.timeline[i as int]);
        i = i + 1;
    }
    assert(d@.timeline.take(i as int) =~= d@.timeline);
    rws
}

/// Column boundaries of the diagram, or `None` where the last would not fit in 32 bits.
pub fn calculate_cols(d: &SequenceDiagram) -> (r: Option<Vec<u32>>)
    requires
        d@.wf(),
    ensures
        r is Some <==> fits(diagram_cols(d@)),
        r matches Some(v) ==> as_ints(v@) == diagram_cols(d@),
{
    let participants = d.get_participants();
    let mut widths: Vec<u128> = Vec::new();
    let mut i: usize = 0;
    while i < participants.len()
        invariant
            participants_view(participants@) == d@.participants,
            i <= participants@.len(),
            as_nats(widths@) == d@.participant_widths().take(i as int),
            widths@.len() == i,
            forall|j: int| 0 <= j < widths@.len() ==> #[trigger] widths@[j] < 0x1_0000_0000_0000_0000_0000_0000_0000u128,
        decreases participants@.len() - i,
    {
        assert(participants@[i as int]@ == d@.participants[i as int]);
        let w = crate::participant::get_participant_width(&participants[i]);
        let ghost prev = widths@;
        widths.push(w);
        assert(d@.participant_widths()[i as int] == participant_width(d@.participants[i as int]));
        assert forall|j: int| 0 <= j <= i implies #[trigger] as_nats(widths@)[j] == d@.participant_widths().take(i as int + 1)[j] by {
            if j < i {
                assert(as_nats(prev)[j] == d@.participant_widths().take(i as int)[j]);
            }
        }
        assert(as_nats(widths@) =~= d@.participant_widths().take(i as int + 1));
        i = i + 1;
    }
    assert(d@.participant_widths().take(i as int) =~= d@.participant_widths());
    let ghost ws = d@.participant_widths();
    proof {
        lemma_reserved_in_range(d@);
        lemma_initial_cols_shape(ws);
        lemma_resolution_in_range(d@.reserved_widths(), initial_cols(ws).len());
        lemma_apply_all(initial_cols(ws), resolution_order(d@.reserved_widths()));
    }
    let initial = match initial_columns(&widths) {
        Some(c) => c,
        None => {
            assert(!fits(diagram_cols(d@)));
            return None;
        },
    };
    let rws = collect_reserved_widths(d);
    resolve_columns(initial, &rws)
}


/// The column boundaries of a well-formed diagram: two more than its participants (one
/// when it has none), in order, and strictly increasing when it has participants.
pub proof fn lemma_diagram_cols(d: DiagramView)
    requires
        d.wf(),
    ensures
        diagram_cols(d).len() == col_count(d.participants.len()),
        nondecreasing(diagram_cols(d)),
        d.participants.len() > 0 ==> strictly_increasing(diagram_cols(d)),
{
    let ws = d.participant_widths();
    lemma_reserved_in_range(d);
    lemma_initial_cols_shape(ws);
    lemma_resolution_in_range(d.reserved_widths(), initial_cols(ws).len());
    lemma_apply_all(initial_cols(ws), resolution_order(d.reserved_widths()));
    assert forall|k: int| 0 <= k < ws.len() implies #[trigger] ws[k] >= 2 by {
        assert(ws[k] == participant_width(d.participants[k]));
    }
}

/// Height of each timeline row: the largest height of its events.
pub fn calculate_row_heights(d: &SequenceDiagram) -> (r: Vec<u128>)
    requires
        d@.wf(),
    ensures
        as_nats(r@) == d@.row_heights(),
        r@.len() == d@.timeline.len(),
        forall|j: int| 0 <= j < r@.len() ==> #[trigger] r@[j] < 0x1_0000_0000_0000_0000_0000_0000_0u128,
{
    let timeline = d.get_timeline();
    let mut heights: Vec<u128> = Vec::new();
    let mut i: usize = 0;
    while i < timeline.len()
        invariant
            d@.wf(),
            timeline_view(timeline@) == d@.timeline,
            i <= timeline@.len(),
            heights@.len() == i,
            as_nats(heights@) == d@.row_heights().take(i as int),
            forall|j: int| 0 <= j < heights@.len() ==> #[trigger] heights@[j] < 0x1_0000_0000_0000_0000_0000_0000_0u128,
        decreases timeline@.len() - i,
    {
        let row = &timeline[i];
        let ghost evs = d@.timeline[i as int];
        assert(row_view(row@) == evs);
        let mut h: u128 = 0;
        let mut k: usize = 0;
        while k < row.len()
            invariant
                d@.wf(),
                timeline_view(timeline@) == d@.timeline,
                i < timeline@.len(),
                evs == d@.timeline[i as int],
                row_view(row@) == evs,
                k <= row@.len(),
                h == d@.row_height(evs.take(k as int)),
                h < 0x1_0000_0000_0000_0000_0000_0000_0u128,
            decreases row@.len() - k,
        {
            assert(row@[k as int]@ == evs[k as int]);
            assert(evs.take(k as int + 1).drop_last() =~= evs.take(k as int));
            assert(evs.take(k as int + 1).last() == evs[k as int]);
            let e = row[k].height(d);
            if e > h {
                h = e;
            }
            k = k + 1;
        }
        assert(evs.take(k as int) =~= evs);
        let ghost prev = heights@;
        heights.push(h);
        assert forall|j: int| 0 <= j <= i implies #[trigger] as_nats(heights@)[j] == d@.row_heights().take(i as int + 1)[j] by {
            if j < i {
                assert(as_nats(prev)[j] == d@.row_heights().take(i as int)[j]);
            }
        }
        assert(as_nats(heights@) =~= d@.row_heights().take(i as int + 1));
        i = i + 1;
    }
    assert(d@.row_heights().take(i as int) =~= d@.row_heights());
    heights
}

/// The grid of the diagram: row bounds from the rows' heights, then column bounds from
/// the participants' widths and every declared constraint. `None` where a coordinate
/// would not fit in 32 bits.
pub fn calculate_grid(d: &SequenceDiagram) -> (r: Option<GridSize>)
    requires
        d@.wf(),
    ensures
        r is Some <==> fits(diagram_rows(d@)) && fits(diagram_cols(d@)),
        r matches Some(g) ==> g.wf() && as_ints(g.cols@) == diagram_cols(d@) && as_ints(
            g.row_bounds@,
        ) == diagram_rows(d@) && crate::draw::grid_for(d@, g),
{
    let mut heights = calculate_row_heights(d);
    let first = heights[0];
    heights.push(first);
    let ghost hs = grid_row_heights(d@);
    assert(as_nats(heights@) =~= hs);
    proof {
        lemma_row_bounds(hs);
    }
    let mut grid = GridSize::new();
    assert(as_ints(grid.row_bounds@) =~= row_bounds_of(hs.take(0)));
    let mut i: usize = 0;
    while i < heights.len()
        invariant
            hs == grid_row_heights(d@),
            as_nats(heights@) == hs,
            heights@.len() == hs.len(),
            forall|j: int| 0 <= j < heights@.len() ==> #[trigger] heights@[j] < 0x1_0000_0000_0000_0000_0000_0000_0u128,
            nondecreasing(row_bounds_of(hs)),
            row_bounds_of(hs).len() == 2 * hs.len() + 1,
            i <= heights@.len(),
            grid.wf(),
            grid.cols@ == seq![0u32],
            as_ints(grid.row_bounds@) == row_bounds_of(hs.take(i as int)),
        decreases heights@.len() - i,
    {
        let h = heights[i];
        assert(hs.take(i as int + 1).drop_last() =~= hs.take(i as int));
        assert(hs.take(i as int + 1).last() == hs[i as int]);
        assert(hs[i as int] == h as nat);
        proof {
            lemma_row_bounds(hs.take(i as int));
        }
        let last = grid.row_bounds[grid.row_bounds.len() - 1];
        if last as u128 + h + ROW_MARGIN as u128 > u32::MAX as u128 {
            proof {
                let b = row_bounds_of(hs.take(i as int));
                assert(as_ints(grid.row_bounds@)[grid.row_bounds@.len() - 1] == last as int);
                assert(b.last() == last as int);
                assert(row_bounds_of(hs.take(i as int + 1)) == b.push(b.last() + hs[i as int]).push(
                    b.last() + hs[i as int] + ROW_MARGIN));
                lemma_row_bounds_take(hs, i as int + 1);
                let k = 2 * (i as int + 1);
                assert(row_bounds_of(hs.take(i as int + 1))[k] == last + h + ROW_MARGIN);
                assert(row_bounds_of(hs)[k] == row_bounds_of(hs.take(i as int + 1))[k]);
                assert(row_bounds_of(hs)[k] <= row_bounds_of(hs).last());
            }
            return None;
        }
        let ghost prev = grid.row_bounds@;
        grid.add_row(h as u32);
        assert(as_ints(grid.row_bounds@) =~= row_bounds_of(hs.take(i as int + 1)));
        i = i + 1;
    }
    assert(hs.take(i as int) =~= hs);
    proof {
        lemma_diagram_cols(d@);
        lemma_diagram_rows(d@);
    }
    match calculate_cols(d) {
        Some(cols) => {
            grid.cols = cols;
            Some(grid)
        },
        None => None,
    }
}


/// Every constraint a diagram declares between two distinct column boundaries holds in
/// its resolved grid: the two boundaries end up at least the constraint's width apart.
pub proof fn lemma_reserved_width_met(d: DiagramView, m: int)
    requires
        d.wf(),
        0 <= m < d.reserved_widths().len(),
        d.reserved_widths()[m].left_col < d.reserved_widths()[m].right_col,
    ensures
        diagram_cols(d)[d.reserved_widths()[m].right_col as int] - diagram_cols(d)[d.reserved_widths()[m].left_col as int]
            >= d.reserved_widths()[m].width,
{
    let rws = d.reserved_widths();
    let ws = d.participant_widths();
    lemma_reserved_in_range(d);
    lemma_initial_cols_shape(ws);
    lemma_resolution_order(rws);
    lemma_resolution_in_range(rws, initial_cols(ws).len());
    let order = resolution_order(rws);
    assert(order.contains(rws[m]));
    let k = choose|k: int| 0 <= k < order.len() && order[k] == rws[m];
    lemma_apply_all_meets(initial_cols(ws), order, k);
}

/// Row bounds of a diagram: a top and a bottom for each timeline row and for the footer
/// row; each row's height is the largest height of its events, and the next row starts a
/// margin below it. The bounds never decrease, and increase strictly when every row has
/// a positive height.
pub proof fn lemma_diagram_rows(d: DiagramView)
    requires
        d.wf(),
    ensures
        diagram_rows(d).len() == 2 * (d.timeline.len() + 1) + 1,
        diagram_rows(d)[0] == ROW_MARGIN,
        forall|i: int|
            0 <= i < d.timeline.len() ==> diagram_rows(d)[2 * i + 1] - diagram_rows(d)[2 * i]
                == d.row_height(#[trigger] d.timeline[i]),
        forall|i: int|
            0 <= i < d.timeline.len() ==> diagram_rows(d)[2 * i + 2] - diagram_rows(d)[2 * i]
                == d.row_height(#[trigger] d.timeline[i]) + ROW_MARGIN,
        diagram_rows(d)[2 * d.timeline.len() as int + 1] - diagram_rows(d)[2 * d.timeline.len() as int]
            == d.row_height(d.timeline[0]),
        nondecreasing(diagram_rows(d)),
        (forall|i: int| 0 <= i < d.timeline.len() ==> d.row_height(#[trigger] d.timeline[i]) > 0)
            ==> strictly_increasing(diagram_rows(d)),
{
    let hs = grid_row_heights(d);
    lemma_row_bounds(hs);
    assert forall|i: int| 0 <= i < d.timeline.len() implies #[trigger] hs[i] == d.row_height(d.timeline[i]) by {}
    assert(hs[d.timeline.len() as int] == d.row_height(d.timeline[0]));
    assert forall|i: int| 0 <= i < d.timeline.len() implies diagram_rows(d)[2 * i + 2] - diagram_rows(d)[2 * i]
        == d.row_height(#[trigger] d.timeline[i]) + ROW_MARGIN by {
        assert(row_bounds_of(hs)[2 * i + 1] - row_bounds_of(hs)[2 * i] == hs[i]);
        assert(row_bounds_of(hs)[2 * i + 2] - row_bounds_of(hs)[2 * i + 1] == ROW_MARGIN);
    }
    if forall|i: int| 0 <= i < d.timeline.len() ==> d.row_height(#[trigger] d.timeline[i]) > 0 {
        assert forall|i: int| 0 <= i < hs.len() implies #[trigger] hs[i] > 0 by {
            if i < d.timeline.len() {
                assert(d.row_height(d.timeline[i]) > 0);
            } else {
                assert(d.row_height(d.timeline[0]) > 0);
            }
        }
    }
}

/// A message to its own sender reserves its room between the boundary of its column and
/// the next one to the right; resolving that constraint changes the gap between those two
/// boundaries only, every other gap between neighbouring boundaries stays as it was.
pub proof fn lemma_self_message_local(d: DiagramView, m: MessageView, cols: Seq<int>)
    requires
        d.wf(),
        m.from == m.to,
        m.from < d.participants.len(),
        nondecreasing(cols),
        cols.len() == col_count(d.participants.len()),
    ensures
        d.event_reserved_width(EventView::MessageSent(m)) matches Some(rw) && rw.left_col == m.from + 1
            && rw.right_col == m.from + 2 && forall|k: int|
            0 <= k < cols.len() - 1 && k != m.from + 1 ==> #[trigger] apply_reserved(cols, rw)[k + 1]
                - apply_reserved(cols, rw)[k] == cols[k + 1] - cols[k],
{
    let rw = d.event_reserved_width(EventView::MessageSent(m))->Some_0;
    lemma_apply_reserved(cols, rw);
    assert forall|k: int| 0 <= k < cols.len() - 1 && k != m.from + 1 implies #[trigger] apply_reserved(cols, rw)[k
        + 1] - apply_reserved(cols, rw)[k] == cols[k + 1] - cols[k] by {
        assert(!(k < rw.right_col <= k + 1));
    }
}

/// Two diagrams with the same model have the same geometry: the grid depends on the model
/// alone, and every construction step's effect on the model on its arguments alone.
pub proof fn lemma_geometry_deterministic(d1: DiagramView, d2: DiagramView)
    requires
        d1 == d2,
    ensures
        diagram_cols(d1) == diagram_cols(d2),
        diagram_rows(d1) == diagram_rows(d2),
{
}

} // verus!
