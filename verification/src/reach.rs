use crate::map::TileMap;
use vstd::prelude::*;

verus! {

/// The two cells share an edge.
pub open spec fn adjacent(a: (int, int), b: (int, int)) -> bool {
    ||| (a.0 == b.0 && (a.1 == b.1 + 1 || a.1 + 1 == b.1))
    ||| (a.1 == b.1 && (a.0 == b.0 + 1 || a.0 + 1 == b.0))
}

/// `v` lies between `a` and `b`, whichever of the two is the smaller.
pub open spec fn between(v: int, a: int, b: int) -> bool {
    (a <= v <= b) || (b <= v <= a)
}

impl TileMap {
    /// A walk: one cell or more, each of them open ground, each sharing an
    /// edge with the next.
    pub open spec fn is_walk(self, path: Seq<(int, int)>) -> bool {
        &&& path.len() >= 1
        &&& forall|i: int| 0 <= i < path.len() ==> self.is_floor((#[trigger] path[i]).0, path[i].1)
        &&& forall|i: int| 0 <= i < path.len() - 1 ==> adjacent(#[trigger] path[i], path[i + 1])
    }

    /// Some walk leads from `a` to `b`.
    pub open spec fn linked(self, a: (int, int), b: (int, int)) -> bool {
        exists|path: Seq<(int, int)>| #[trigger]
            self.is_walk(path) && path[0] == a && path[path.len() - 1] == b
    }

    /// Every cell that is open ground in `self` is open ground in `later`.
    pub open spec fn opened_in(self, later: TileMap) -> bool {
        &&& self.width == later.width
        &&& self.height == later.height
        &&& forall|x: int, y: int| #![trigger later.tile(x, y)]
            self.is_floor(x, y) ==> later.is_floor(x, y)
    }
}

/// A cell of open ground is linked to itself.
pub proof fn lemma_linked_self(m: TileMap, a: (int, int))
    requires
        m.is_floor(a.0, a.1),
    ensures
        m.linked(a, a),
{
    let path = seq![a];
    assert(m.is_walk(path));
    assert(path[0] == a && path[path.len() - 1] == a);
}

/// A walk from `a` to `b` and a walk from `b` to `c` make a walk from `a` to `c`.
pub proof fn lemma_linked_trans(m: TileMap, a: (int, int), b: (int, int), c: (int, int))
    requires
        m.linked(a, b),
        m.linked(b, c),
    ensures
        m.linked(a, c),
{
    let p = choose|path: Seq<(int, int)>| #[trigger]
        m.is_walk(path) && path[0] == a && path[path.len() - 1] == b;
    let q = choose|path: Seq<(int, int)>| #[trigger]
        m.is_walk(path) && path[0] == b && path[path.len() - 1] == c;
    let path = p + q.subrange(1, q.len() as int);
    assert forall|i: int| 0 <= i < path.len() implies m.is_floor((#[trigger] path[i]).0, path[i].1) by {
        if i < p.len() {
            assert(path[i] == p[i]);
        } else {
            assert(path[i] == q[i - p.len() + 1]);
        }
    }
    assert forall|i: int| 0 <= i < path.len() - 1 implies adjacent(#[trigger] path[i], path[i + 1]) by {
        if i < p.len() - 1 {
            assert(path[i] == p[i] && path[i + 1] == p[i + 1]);
        } else if i == p.len() - 1 {
            assert(path[i] == q[0] && path[i + 1] == q[1]);
        } else {
            assert(path[i] == q[i - p.len() + 1] && path[i + 1] == q[i - p.len() + 2]);
        }
    }
    assert(m.is_walk(path));
    assert(path[0] == a);
    if q.len() == 1 {
        assert(path[path.len() - 1] == c);
    } else {
        assert(path[path.len() - 1] == q[q.len() - 1]);
    }
}

/// A walk can be walked back.
pub proof fn lemma_linked_back(m: TileMap, a: (int, int), b: (int, int))
    requires
        m.linked(a, b),
    ensures
        m.linked(b, a),
{
    let p = choose|path: Seq<(int, int)>| #[trigger]
        m.is_walk(path) && path[0] == a && path[path.len() - 1] == b;
    let back = Seq::new(p.len(), |i: int| p[p.len() - 1 - i]);
    assert forall|i: int| 0 <= i < back.len() - 1 implies adjacent(#[trigger] back[i], back[i + 1]) by {
        assert(adjacent(p[p.len() - 2 - i], p[p.len() - 2 - i + 1]));
    }
    assert(m.is_walk(back));
    assert(back[0] == b && back[back.len() - 1] == a);
}

/// Opening more ground breaks no link.
pub proof fn lemma_linked_stays(m: TileMap, later: TileMap, a: (int, int), b: (int, int))
    requires
        m.opened_in(later),
        m.linked(a, b),
    ensures
        later.linked(a, b),
{
    let p = choose|path: Seq<(int, int)>| #[trigger]
        m.is_walk(path) && path[0] == a && path[path.len() - 1] == b;
    assert forall|i: int| 0 <= i < p.len() implies later.is_floor((#[trigger] p[i]).0, p[i].1) by {
        assert(m.is_floor(p[i].0, p[i].1));
    }
    assert(later.is_walk(p));
}

/// The cells of one row between two columns, if all are open ground, link the
/// two ends.
pub proof fn lemma_row_linked(m: TileMap, xa: int, xb: int, y: int)
    requires
        forall|x: int| between(x, xa, xb) ==> m.is_floor(x, y),
    ensures
        m.linked((xa, y), (xb, y)),
{
    let n = if xa <= xb { xb - xa + 1 } else { xa - xb + 1 };
    let path = Seq::new(n as nat, |i: int| (if xa <= xb { xa + i } else { xa - i }, y));
    assert forall|i: int| 0 <= i < path.len() implies m.is_floor((#[trigger] path[i]).0, path[i].1) by {
        assert(between(path[i].0, xa, xb));
    }
    assert(m.is_walk(path));
    assert(path[0] == (xa, y) && path[path.len() - 1] == (xb, y));
}

/// The cells of one column between two rows, if all are open ground, link the
/// two ends.
pub proof fn lemma_column_linked(m: TileMap, x: int, ya: int, yb: int)
    requires
        forall|y: int| between(y, ya, yb) ==> m.is_floor(x, y),
    ensures
        m.linked((x, ya), (x, yb)),
{
    let n = if ya <= yb { yb - ya + 1 } else { ya - yb + 1 };
    let path = Seq::new(n as nat, |i: int| (x, if ya <= yb { ya + i } else { ya - i }));
    assert forall|i: int| 0 <= i < path.len() implies m.is_floor((#[trigger] path[i]).0, path[i].1) by {
        assert(between(path[i].1, ya, yb));
    }
    assert(m.is_walk(path));
    assert(path[0] == (x, ya) && path[path.len() - 1] == (x, yb));
}

/// An L of open ground links its two ends: a row and a column that share the
/// corner `(corner_x, corner_y)`, which is `(b.0, a.1)` or `(a.0, b.1)`.
pub proof fn lemma_elbow_linked(m: TileMap, a: (int, int), b: (int, int), row_first: bool)
    requires
        row_first ==> (forall|x: int| between(x, a.0, b.0) ==> m.is_floor(x, a.1)) && (forall|y: int|
            between(y, a.1, b.1) ==> m.is_floor(b.0, y)),
        !row_first ==> (forall|y: int| between(y, a.1, b.1) ==> m.is_floor(a.0, y)) && (forall|x: int|
            between(x, a.0, b.0) ==> m.is_floor(x, b.1)),
    ensures
        m.linked(a, b),
{
    if row_first {
        lemma_row_linked(m, a.0, b.0, a.1);
        lemma_column_linked(m, b.0, a.1, b.1);
        lemma_linked_trans(m, a, (b.0, a.1), b);
    } else {
        lemma_column_linked(m, a.0, a.1, b.1);
        lemma_row_linked(m, a.0, b.0, b.1);
        lemma_linked_trans(m, a, (a.0, b.1), b);
    }
}

/// Any two cells of a block of open ground are linked.
pub proof fn lemma_block_linked(
    m: TileMap,
    x_lo: int,
    x_hi: int,
    y_lo: int,
    y_hi: int,
    a: (int, int),
    b: (int, int),
)
    requires
        forall|x: int, y: int| x_lo <= x <= x_hi && y_lo <= y <= y_hi ==> m.is_floor(x, y),
        x_lo <= a.0 <= x_hi && y_lo <= a.1 <= y_hi,
        x_lo <= b.0 <= x_hi && y_lo <= b.1 <= y_hi,
    ensures
        m.linked(a, b),
{
    lemma_elbow_linked(m, a, b, true);
}

} // verus!
