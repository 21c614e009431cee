//! Tetromino footprints and their rotation.
//!
//! A footprint is a list of (x, y) cell offsets with y increasing upward. The
//! panel is only 3 lanes wide, so the I-piece is kept vertical.

use vstd::prelude::*;

verus! {

/// Number of tetromino shapes.
pub const SHAPE_COUNT: usize = 7;

/// The x offsets of a footprint.
pub open spec fn xs(c: Seq<(i8, i8)>) -> Seq<int> {
    c.map_values(|p: (i8, i8)| p.0 as int)
}

/// The y offsets of a footprint.
pub open spec fn ys(c: Seq<(i8, i8)>) -> Seq<int> {
    c.map_values(|p: (i8, i8)| p.1 as int)
}

/// Largest element of `s`, or 0 when `s` is empty.
pub open spec fn seq_max(s: Seq<int>) -> int
    decreases s.len(),
{
    if s.len() == 0 {
        0
    } else if s.len() == 1 {
        s[0]
    } else {
        let m = seq_max(s.drop_last());
        if s.last() > m {
            s.last()
        } else {
            m
        }
    }
}

/// Smallest element of `s`, or 0 when `s` is empty.
pub open spec fn seq_min(s: Seq<int>) -> int
    decreases s.len(),
{
    if s.len() == 0 {
        0
    } else if s.len() == 1 {
        s[0]
    } else {
        let m = seq_min(s.drop_last());
        if s.last() < m {
            s.last()
        } else {
            m
        }
    }
}

/// `seq_max` bounds every element and is one of them.
pub proof fn lemma_seq_max(s: Seq<int>)
    requires
        s.len() > 0,
    ensures
        forall|i: int| 0 <= i < s.len() ==> s[i] <= seq_max(s),
        exists|i: int| 0 <= i < s.len() && s[i] == seq_max(s),
    decreases s.len(),
{
    if s.len() == 1 {
        assert(s[0] == seq_max(s));
    } else {
        lemma_seq_max(s.drop_last());
        let m = seq_max(s.drop_last());
        let k = choose|i: int| 0 <= i < s.drop_last().len() && s.drop_last()[i] == m;
        assert(s[k] == m);
        assert(s[s.len() - 1] == s.last());
        assert forall|i: int| 0 <= i < s.len() implies s[i] <= seq_max(s) by {
            if i < s.len() - 1 {
                assert(s[i] == s.drop_last()[i]);
            }
        }
    }
}

/// `seq_min` bounds every element from below and is one of them.
pub proof fn lemma_seq_min(s: Seq<int>)
    requires
        s.len() > 0,
    ensures
        forall|i: int| 0 <= i < s.len() ==> seq_min(s) <= s[i],
        exists|i: int| 0 <= i < s.len() && s[i] == seq_min(s),
    decreases s.len(),
{
    if s.len() == 1 {
        assert(s[0] == seq_min(s));
    } else {
        lemma_seq_min(s.drop_last());
        let m = seq_min(s.drop_last());
        let k = choose|i: int| 0 <= i < s.drop_last().len() && s.drop_last()[i] == m;
        assert(s[k] == m);
        assert(s[s.len() - 1] == s.last());
        assert forall|i: int| 0 <= i < s.len() implies seq_min(s) <= s[i] by {
            if i < s.len() - 1 {
                assert(s[i] == s.drop_last()[i]);
            }
        }
    }
}

/// Width of a footprint: one more than its largest x (1 when empty).
pub open spec fn width_of(c: Seq<(i8, i8)>) -> int {
    seq_max(xs(c)) + 1
}

/// Height of a footprint: one more than its largest y (1 when empty).
pub open spec fn height_of(c: Seq<(i8, i8)>) -> int {
    seq_max(ys(c)) + 1
}

/// The footprint of tetromino `idx` in its spawn orientation.
pub open spec fn shape_spec(idx: int) -> Seq<(i8, i8)> {
    if idx == 0 {
        seq![(0i8, 0i8), (0, 1), (0, 2), (0, 3)]
    } else if idx == 1 {
        seq![(0i8, 0i8), (1, 0), (0, 1), (1, 1)]
    } else if idx == 2 {
        seq![(0i8, 0i8), (1, 0), (2, 0), (1, 1)]
    } else if idx == 3 {
        seq![(1i8, 0i8), (2, 0), (0, 1), (1, 1)]
    } else if idx == 4 {
        seq![(0i8, 0i8), (1, 0), (1, 1), (2, 1)]
    } else if idx == 5 {
        seq![(0i8, 0i8), (0, 1), (1, 1), (2, 1)]
    } else {
        seq![(2i8, 0i8), (0, 1), (1, 1), (2, 1)]
    }
}

/// The footprint of tetromino `idx` (I, O, T, S, Z, J, L), spawn orientation.
pub fn shape(idx: usize) -> (c: Vec<(i8, i8)>)
    requires
        idx < SHAPE_COUNT,
    ensures
        c@ == shape_spec(idx as int),
{
    if idx == 0 {
        vec![(0, 0), (0, 1), (0, 2), (0, 3)]
    } else if idx == 1 {
        vec![(0, 0), (1, 0), (0, 1), (1, 1)]
    } else if idx == 2 {
        vec![(0, 0), (1, 0), (2, 0), (1, 1)]
    } else if idx == 3 {
        vec![(1, 0), (2, 0), (0, 1), (1, 1)]
    } else if idx == 4 {
        vec![(0, 0), (1, 0), (1, 1), (2, 1)]
    } else if idx == 5 {
        vec![(0, 0), (0, 1), (1, 1), (2, 1)]
    } else {
        vec![(2, 0), (0, 1), (1, 1), (2, 1)]
    }
}

/// Largest x of a footprint (0 when empty).
fn max_x(cells: &[(i8, i8)]) -> (m: i8)
    ensures
        m == seq_max(xs(cells@)),
{
    let mut m: i8 = 0;
    let mut i: usize = 0;
    while i < cells.len()
        invariant
            i <= cells@.len(),
            m == seq_max(xs(cells@.subrange(0, i as int))),
        decreases cells@.len() - i,
    {
        let x = cells[i].0;
        proof {
            let a = xs(cells@.subrange(0, i + 1));
            assert(a.drop_last() =~= xs(cells@.subrange(0, i as int)));
            assert(a.last() == x);
        }
        if i == 0 || x > m {
            m = x;
        }
        i = i + 1;
    }
    assert(cells@.subrange(0, cells@.len() as int) =~= cells@);
    m
}

/// Largest y of a footprint (0 when empty).
fn max_y(cells: &[(i8, i8)]) -> (m: i8)
    ensures
        m == seq_max(ys(cells@)),
{
    let mut m: i8 = 0;
    let mut i: usize = 0;
    while i < cells.len()
        invariant
            i <= cells@.len(),
            m == seq_max(ys(cells@.subrange(0, i as int))),
        decreases cells@.len() - i,
    {
        let y = cells[i].1;
        proof {
            let a = ys(cells@.subrange(0, i + 1));
            assert(a.drop_last() =~= ys(cells@.subrange(0, i as int)));
            assert(a.last() == y);
        }
        if i == 0 || y > m {
            m = y;
        }
        i = i + 1;
    }
    assert(cells@.subrange(0, cells@.len() as int) =~= cells@);
    m
}

/// Smallest x of a footprint (0 when empty).
fn min_x(cells: &[(i8, i8)]) -> (m: i8)
    ensures
        m == seq_min(xs(cells@)),
{
    let mut m: i8 = 0;
    let mut i: usize = 0;
    while i < cells.len()
        invariant
            i <= cells@.len(),
            m == seq_min(xs(cells@.subrange(0, i as int))),
        decreases cells@.len() - i,
    {
        let x = cells[i].0;
        proof {
            let a = xs(cells@.subrange(0, i + 1));
            assert(a.drop_last() =~= xs(cells@.subrange(0, i as int)));
            assert(a.last() == x);
        }
        if i == 0 || x < m {
            m = x;
        }
        i = i + 1;
    }
    assert(cells@.subrange(0, cells@.len() as int) =~= cells@);
    m
}

/// An owned copy of a footprint.
pub fn copy_cells(cells: &[(i8, i8)]) -> (out: Vec<(i8, i8)>)
    ensures
        out@ == cells@,
{
    let mut out: Vec<(i8, i8)> = Vec::new();
    let mut i: usize = 0;
    while i < cells.len()
        invariant
            i <= cells@.len(),
            out@ == cells@.subrange(0, i as int),
        decreases cells@.len() - i,
    {
        out.push(cells[i]);
        i = i + 1;
    }
    assert(cells@.subrange(0, cells@.len() as int) =~= cells@);
    out
}

/// Width of a footprint in columns.
pub fn shape_width(cells: &[(i8, i8)]) -> (w: i8)
    requires
        seq_max(xs(cells@)) < 127,
    ensures
        w == width_of(cells@),
{
    max_x(cells) + 1
}

/// Height of a footprint in rows.
pub fn shape_height(cells: &[(i8, i8)]) -> (h: i8)
    requires
        seq_max(ys(cells@)) < 127,
    ensures
        h == height_of(cells@),
{
    max_y(cells) + 1
}

/// The vertical I footprint.
pub open spec fn vertical_i() -> Seq<(i8, i8)> {
    seq![(0i8, 0i8), (0, 1), (0, 2), (0, 3)]
}

/// A footprint turned a quarter clockwise and moved back to the origin:
/// cell (x, y) goes to (top - y, x - left) where `top` is the largest y and
/// `left` the smallest x. A vertical I-piece (1 x 4) is kept as it is and a
/// horizontal one (4 x 1) is turned upright, since a horizontal I never fits
/// a 3-lane panel.
pub open spec fn rotated(c: Seq<(i8, i8)>) -> Seq<(i8, i8)> {
    if width_of(c) == 1 && height_of(c) == 4 {
        c
    } else if width_of(c) == 4 && height_of(c) == 1 {
        vertical_i()
    } else {
        Seq::new(
            c.len(),
            |i: int| ((seq_max(ys(c)) - c[i].1) as i8, (c[i].0 - seq_min(xs(c))) as i8),
        )
    }
}

/// The offsets of `c` stay in the range `rotate` can compute without
/// overflowing an `i8`.
pub open spec fn rotatable(c: Seq<(i8, i8)>) -> bool {
    &&& seq_max(xs(c)) < 127
    &&& seq_max(ys(c)) < 127
    &&& seq_max(ys(c)) - seq_min(ys(c)) <= 127
    &&& seq_max(xs(c)) - seq_min(xs(c)) <= 127
}

/// Rotate a footprint a quarter turn clockwise and re-normalise it.
pub fn rotate(cells: &[(i8, i8)]) -> (out: Vec<(i8, i8)>)
    requires
        rotatable(cells@),
    ensures
        out@ == rotated(cells@),
{
    let w = shape_width(cells);
    let h = shape_height(cells);
    if w == 1 && h == 4 {
        return copy_cells(cells);
    }
    if w == 4 && h == 1 {
        return vec![(0, 0), (0, 1), (0, 2), (0, 3)];
    }
    let top = max_y(cells);
    let left = min_x(cells);
    let ghost c = cells@;
    proof {
        if c.len() > 0 {
            lemma_seq_max(ys(c));
            lemma_seq_min(ys(c));
            lemma_seq_min(xs(c));
            lemma_seq_max(xs(c));
        }
    }
    let mut out: Vec<(i8, i8)> = Vec::new();
    let mut i: usize = 0;
    while i < cells.len()
        invariant
            i <= c.len(),
            c == cells@,
            top == seq_max(ys(c)),
            left == seq_min(xs(c)),
            rotatable(c),
            c.len() > 0 ==> forall|k: int| 0 <= k < c.len() ==> ys(c)[k] <= top,
            c.len() > 0 ==> forall|k: int| 0 <= k < c.len() ==> seq_min(ys(c)) <= ys(c)[k],
            c.len() > 0 ==> forall|k: int| 0 <= k < c.len() ==> left <= xs(c)[k],
            c.len() > 0 ==> forall|k: int| 0 <= k < c.len() ==> xs(c)[k] <= seq_max(xs(c)),
            out@.len() == i,
            forall|k: int|
                0 <= k < i ==> #[trigger] out@[k] == ((top - c[k].1) as i8, (c[k].0 - left) as i8),
        decreases c.len() - i,
    {
        let (x, y) = cells[i];
        assert(ys(c)[i as int] == y);
        assert(xs(c)[i as int] == x);
        out.push((top - y, x - left));
        i = i + 1;
    }
    assert(out@ =~= rotated(c));
    out
}


/// An upper bound of `s` that occurs in `s` is its maximum.
pub proof fn lemma_seq_max_is(s: Seq<int>, m: int)
    requires
        s.len() > 0,
        forall|i: int| 0 <= i < s.len() ==> s[i] <= m,
        exists|i: int| 0 <= i < s.len() && s[i] == m,
    ensures
        seq_max(s) == m,
{
    lemma_seq_max(s);
    let k = choose|i: int| 0 <= i < s.len() && s[i] == seq_max(s);
    let j = choose|i: int| 0 <= i < s.len() && s[i] == m;
    assert(s[k] <= m);
    assert(s[j] <= seq_max(s));
}

/// A lower bound of `s` that occurs in `s` is its minimum.
pub proof fn lemma_seq_min_is(s: Seq<int>, m: int)
    requires
        s.len() > 0,
        forall|i: int| 0 <= i < s.len() ==> m <= s[i],
        exists|i: int| 0 <= i < s.len() && s[i] == m,
    ensures
        seq_min(s) == m,
{
    lemma_seq_min(s);
    let k = choose|i: int| 0 <= i < s.len() && s[i] == seq_min(s);
    let j = choose|i: int| 0 <= i < s.len() && m <= s[i] && s[i] == m;
    assert(m <= s[k]);
    assert(seq_min(s) <= s[j]);
}

/// A footprint anchored at the origin (smallest x and y are 0) whose offsets
/// stay below 64.
pub open spec fn normalized(c: Seq<(i8, i8)>) -> bool {
    &&& c.len() > 0
    &&& seq_min(xs(c)) == 0
    &&& seq_min(ys(c)) == 0
    &&& seq_max(xs(c)) < 64
    &&& seq_max(ys(c)) < 64
}

/// A normalized footprint that is not an I-piece special case turns into a
/// normalized footprint with width and height swapped.
proof fn lemma_rotated_extents(c: Seq<(i8, i8)>)
    requires
        normalized(c),
        !(width_of(c) == 1 && height_of(c) == 4),
        !(width_of(c) == 4 && height_of(c) == 1),
    ensures
        normalized(rotated(c)),
        rotated(c).len() == c.len(),
        seq_max(xs(rotated(c))) == seq_max(ys(c)),
        seq_max(ys(rotated(c))) == seq_max(xs(c)),
        forall|i: int|
            0 <= i < c.len() ==> #[trigger] rotated(c)[i] == ((seq_max(ys(c)) - c[i].1) as i8, c[i].0),
{
    let r = rotated(c);
    let h = seq_max(ys(c));
    let w = seq_max(xs(c));
    lemma_seq_max(xs(c));
    lemma_seq_max(ys(c));
    lemma_seq_min(xs(c));
    lemma_seq_min(ys(c));
    assert forall|i: int| 0 <= i < c.len() implies xs(c)[i] == c[i].0 && ys(c)[i] == c[i].1 by {}
    assert forall|i: int| 0 <= i < r.len() implies xs(r)[i] == h - c[i].1 && ys(r)[i] == c[i].0
        && r[i] == ((h - c[i].1) as i8, c[i].0) by {
        assert(ys(c)[i] == c[i].1);
        assert(xs(c)[i] == c[i].0);
        assert(0 <= c[i].1 <= h);
        assert(0 <= c[i].0 <= w);
    }
    let ih = choose|i: int| 0 <= i < ys(c).len() && ys(c)[i] == h;
    let il = choose|i: int| 0 <= i < ys(c).len() && ys(c)[i] == 0;
    let jw = choose|i: int| 0 <= i < xs(c).len() && xs(c)[i] == w;
    let jl = choose|i: int| 0 <= i < xs(c).len() && xs(c)[i] == 0;
    assert(xs(r)[ih] == 0);
    assert(xs(r)[il] == h);
    assert(ys(r)[jw] == w);
    assert(ys(r)[jl] == 0);
    assert(r.len() == c.len());
    assert forall|i: int| 0 <= i < xs(r).len() implies 0 <= #[trigger] xs(r)[i] <= h by {
        assert(ys(c)[i] == c[i].1);
        assert(0 <= ys(c)[i] <= h);
    }
    lemma_seq_min_is(xs(r), 0);
    lemma_seq_max_is(xs(r), h);
    assert forall|i: int| 0 <= i < ys(r).len() implies 0 <= #[trigger] ys(r)[i] <= w by {
        assert(xs(c)[i] == c[i].0);
        assert(0 <= xs(c)[i] <= w);
    }
    lemma_seq_min_is(ys(r), 0);
    lemma_seq_max_is(ys(r), w);
}

/// Four quarter turns give back the footprint, cell for cell, for every
/// normalized footprint except a horizontal I (which is turned upright).
pub proof fn lemma_four_turns_identity(c: Seq<(i8, i8)>)
    requires
        normalized(c),
        !(width_of(c) == 4 && height_of(c) == 1),
    ensures
        rotated(rotated(rotated(rotated(c)))) == c,
{
    if width_of(c) == 1 && height_of(c) == 4 {
        return;
    }
    let r1 = rotated(c);
    lemma_rotated_extents(c);
    let r2 = rotated(r1);
    lemma_rotated_extents(r1);
    let r3 = rotated(r2);
    lemma_rotated_extents(r2);
    let r4 = rotated(r3);
    lemma_rotated_extents(r3);
    assert forall|i: int| 0 <= i < c.len() implies r4[i] == c[i] by {
        lemma_seq_max(xs(c));
        lemma_seq_max(ys(c));
        lemma_seq_min(xs(c));
        lemma_seq_min(ys(c));
        assert(xs(c)[i] == c[i].0);
        assert(ys(c)[i] == c[i].1);
    }
    assert(r4 =~= c);
}

/// Every orientation of every tetromino, as reached by repeated quarter turns
/// from its spawn orientation, is normalized and fits three lanes and four
/// rows.
pub proof fn lemma_shapes_fit_panel(idx: int)
    requires
        0 <= idx < SHAPE_COUNT,
    ensures
        forall|k: nat|
            k < 4 ==> {
                let c = #[trigger] turned(shape_spec(idx), k);
                &&& normalized(c)
                &&& 1 <= width_of(c) <= 3
                &&& 1 <= height_of(c) <= 4
            },
{
    let c = shape_spec(idx);
    reveal_with_fuel(seq_max, 5);
    reveal_with_fuel(seq_min, 5);
    assert(xs(c) =~= seq![c[0].0 as int, c[1].0 as int, c[2].0 as int, c[3].0 as int]);
    assert(ys(c) =~= seq![c[0].1 as int, c[1].1 as int, c[2].1 as int, c[3].1 as int]);
    reveal_with_fuel(turned, 5);
    if idx == 0 {
        assert(turned(c, 1) == c);
        assert(turned(c, 2) == c);
        assert(turned(c, 3) == c);
    } else {
        lemma_rotated_extents(c);
        lemma_rotated_extents(rotated(c));
        lemma_rotated_extents(rotated(rotated(c)));
    }
}

/// `c` turned `k` quarter turns.
pub open spec fn turned(c: Seq<(i8, i8)>, k: nat) -> Seq<(i8, i8)>
    decreases k,
{
    if k == 0 {
        c
    } else {
        rotated(turned(c, (k - 1) as nat))
    }
}


/// A footprint the panel can hold in every orientation: anchored at the
/// origin and at most 3 x 3, or the vertical I.
pub open spec fn footprint_ok(c: Seq<(i8, i8)>) -> bool {
    &&& normalized(c)
    &&& ((width_of(c) <= 3 && height_of(c) <= 3) || c == vertical_i())
}

/// What a panel footprint guarantees: its cells lie inside its width and
/// height, which are at most 3 and 4; it can be turned without overflow; and
/// a quarter turn gives a panel footprint again.
pub proof fn lemma_footprint(c: Seq<(i8, i8)>)
    requires
        footprint_ok(c),
    ensures
        1 <= width_of(c) <= 3,
        1 <= height_of(c) <= 4,
        forall|i: int|
            0 <= i < c.len() ==> 0 <= (#[trigger] c[i]).0 < width_of(c) && 0 <= c[i].1 < height_of(c),
        rotatable(c),
        footprint_ok(rotated(c)),
{
    lemma_seq_max(xs(c));
    lemma_seq_max(ys(c));
    lemma_seq_min(xs(c));
    lemma_seq_min(ys(c));
    assert forall|i: int| 0 <= i < c.len() implies 0 <= (#[trigger] c[i]).0 < width_of(c) && 0 <= c[i].1
        < height_of(c) by {
        assert(xs(c)[i] == c[i].0);
        assert(ys(c)[i] == c[i].1);
    }
    if c == vertical_i() {
        let v = vertical_i();
        reveal_with_fuel(seq_max, 5);
        assert(xs(v) =~= seq![0int, 0, 0, 0]);
        assert(ys(v) =~= seq![0int, 1, 2, 3]);
        assert(width_of(v) == 1);
        assert(height_of(v) == 4);
        assert(rotated(c) == c);
    } else {
        lemma_rotated_extents(c);
    }
}

/// Every tetromino's spawn footprint is a panel footprint.
pub proof fn lemma_spawn_footprint(idx: int)
    requires
        0 <= idx < SHAPE_COUNT,
    ensures
        footprint_ok(shape_spec(idx)),
{
    lemma_shapes_fit_panel(idx);
    reveal_with_fuel(turned, 1);
    let c = shape_spec(idx);
    assert(turned(c, 0) == c);
    if idx == 0 {
        assert(c =~= vertical_i());
    } else {
        reveal_with_fuel(seq_max, 5);
        assert(ys(c) =~= seq![c[0].1 as int, c[1].1 as int, c[2].1 as int, c[3].1 as int]);
        assert(height_of(c) <= 3);
    }
}


/// A quarter turn keeps every cell of a panel footprint: the cell count does
/// not change.
pub proof fn lemma_rotation_keeps_cell_count(c: Seq<(i8, i8)>)
    requires
        footprint_ok(c),
    ensures
        rotated(c).len() == c.len(),
{
    lemma_footprint(c);
}

} // verus!
