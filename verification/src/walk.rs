//! The data walk: the coordinate sequence that places codeword bits in
//! vertical two-module strips from the bottom-right corner to the left
//! edge, reversing direction between strips and stepping around the
//! vertical timing column.

use vstd::prelude::*;
use crate::types::Version;

verus! {

/// The column that steers the walk: columns left of the timing column are
/// counted as if that column were not there.
pub open spec fn walk_adj(x: int, tc: int) -> int {
    if x <= tc {
        x + 1
    } else {
        x
    }
}

/// The walk has visited every data column and stops.
pub open spec fn walk_done(x: int, tc: int) -> bool {
    walk_adj(x, tc) <= 0
}

/// What a walk state must satisfy: a valid width and timing column, the
/// cursor inside the grid (or one column past its left edge), and never
/// on the timing column itself.
pub open spec fn walk_state_inv(x: int, y: int, w: int, tc: int) -> bool {
    &&& (tc == 0 || tc == 6)
    &&& 11 <= w <= 177
    &&& w % 2 == 1
    &&& (tc == 6 ==> w >= 21)
    &&& -1 <= x < w
    &&& 0 <= y < w
    &&& x != tc
}

/// The state after one step of the walk: within a strip the cursor
/// zig-zags between the right and left column while moving up or down;
/// at the end of a strip it moves left into the next strip, jumping two
/// columns where it would land on the timing column.
pub open spec fn walk_step(x: int, y: int, w: int, tc: int) -> (int, int) {
    let adj = walk_adj(x, tc);
    let c = (w - adj) % 4;
    if c == 2 && y > 0 {
        (x + 1, y - 1)
    } else if c == 0 && y < w - 1 {
        (x + 1, y + 1)
    } else if (c == 0 || c == 2) && x == tc + 1 {
        (x - 2, y)
    } else {
        (x - 1, y)
    }
}

/// The index of the two-column strip the cursor stands in; strips are
/// counted from the left edge, so the walk descends through them.
pub open spec fn walk_strip(x: int, tc: int) -> int {
    (walk_adj(x, tc) + 1) / 2
}

/// How many emissions are left within the current strip: twice the
/// distance to the strip's end, plus one on the right column.
pub open spec fn walk_psi(x: int, y: int, w: int, tc: int) -> int {
    let adj = walk_adj(x, tc);
    let c = (w - adj) % 4;
    let dist = if c == 1 || c == 2 {
        y
    } else {
        w - 1 - y
    };
    2 * dist + (if c == 1 || c == 3 {
        1int
    } else {
        0int
    })
}

/// The sequence of coordinates the walk emits from the given state on.
pub open spec fn walk_seq(x: int, y: int, w: int, tc: int) -> Seq<(int, int)>
    decreases walk_strip(x, tc), walk_psi(x, y, w, tc),
        via walk_seq_decreases
{
    if !walk_state_inv(x, y, w, tc) || walk_done(x, tc) {
        Seq::empty()
    } else {
        let next = walk_step(x, y, w, tc);
        seq![(x, y)] + walk_seq(next.0, next.1, w, tc)
    }
}

/// Every step of the walk either moves into a strip farther left or
/// comes closer to the end of its strip, and it keeps the state
/// invariant.
pub proof fn lemma_walk_step(x: int, y: int, w: int, tc: int)
    requires
        walk_state_inv(x, y, w, tc),
        !walk_done(x, tc),
    ensures
        walk_state_inv(walk_step(x, y, w, tc).0, walk_step(x, y, w, tc).1, w, tc),
        walk_strip(walk_step(x, y, w, tc).0, tc) <= walk_strip(x, tc),
        0 <= walk_strip(walk_step(x, y, w, tc).0, tc),
        walk_strip(walk_step(x, y, w, tc).0, tc) == walk_strip(x, tc) ==> 0 <= walk_psi(
            walk_step(x, y, w, tc).0,
            walk_step(x, y, w, tc).1,
            w,
            tc,
        ) < walk_psi(x, y, w, tc),
{
    let adj = walk_adj(x, tc);
    let c = (w - adj) % 4;
    assert(1 <= adj <= w);
    assert(w - adj == 4 * ((w - adj) / 4) + c);
    // The width is odd, so the parity of the column class tells the
    // parity of the adjusted column: even class on odd columns.
    assert((c == 0 || c == 2) ==> adj % 2 == 1);
    assert((c == 1 || c == 3) ==> adj % 2 == 0);
    let nx = walk_step(x, y, w, tc).0;
    let ny = walk_step(x, y, w, tc).1;
    if c == 2 && y > 0 {
        assert(x != tc);
        assert(walk_adj(nx, tc) == adj + 1);
        assert(nx != tc) by {
            if nx == tc {
                assert(adj == tc);
                assert(adj % 2 == 1 && (tc == 0 || tc == 6));
                assert(tc == 0 ==> x == -1 && adj == 0);
            }
        }
        assert((w - adj - 1) % 4 == 1);
    } else if c == 0 && y < w - 1 {
        assert(walk_adj(nx, tc) == adj + 1);
        assert(nx != tc) by {
            if nx == tc {
                assert(adj == tc);
            }
        }
        assert(w - adj >= 1);
        assert((w - adj - 1) % 4 == 3);
    } else if (c == 0 || c == 2) && x == tc + 1 {
        assert(adj == tc + 1);
        assert(walk_adj(nx, tc) == adj - 1);
    } else {
        // The cursor moves one column left; it cannot stand just right
        // of the timing column here, since that column's class is even
        // and the strip-end jump would have fired instead.
        assert(x == tc + 1 ==> adj == tc + 1 && adj % 2 == 1);
        assert(x != tc + 1);
        assert(walk_adj(nx, tc) == adj - 1);
        if c == 1 {
            assert((w - adj + 1) % 4 == 2);
        }
        if c == 3 {
            assert((w - adj + 1) % 4 == 0);
        }
    }
}

#[via_fn]
proof fn walk_seq_decreases(x: int, y: int, w: int, tc: int) {
    if walk_state_inv(x, y, w, tc) && !walk_done(x, tc) {
        lemma_walk_step(x, y, w, tc);
    }
}

/// Every coordinate the walk emits lies inside the grid and off the
/// timing column.
pub proof fn lemma_walk_seq_elements(x: int, y: int, w: int, tc: int)
    ensures
        forall|k: int| 0 <= k < walk_seq(x, y, w, tc).len() ==> {
            let p = #[trigger] walk_seq(x, y, w, tc)[k];
            0 <= p.0 < w && 0 <= p.1 < w && p.0 != tc
        },
    decreases walk_strip(x, tc), walk_psi(x, y, w, tc),
{
    if !walk_state_inv(x, y, w, tc) || walk_done(x, tc) {
    } else {
        lemma_walk_step(x, y, w, tc);
        let next = walk_step(x, y, w, tc);
        lemma_walk_seq_elements(next.0, next.1, w, tc);
        assert(0 <= x) by {
            assert(walk_adj(x, tc) >= 1);
        }
        let s = walk_seq(x, y, w, tc);
        let t = walk_seq(next.0, next.1, w, tc);
        assert forall|k: int| 0 <= k < s.len() implies {
            let p = #[trigger] s[k];
            0 <= p.0 < w && 0 <= p.1 < w && p.0 != tc
        } by {
            if k == 0 {
                assert(s[k] == (x, y));
            } else {
                assert(s[k] == t[k - 1]);
            }
        }
    }
}

/// The cursor of the data walk. `next` hands out the coordinates of the
/// walk one at a time.
pub struct DataModuleIter {
    x: i16,
    y: i16,
    width: i16,
    timing_pattern_column: i16,
}

impl DataModuleIter {
    pub closed spec fn spec_x(self) -> int {
        self.x as int
    }

    pub closed spec fn spec_y(self) -> int {
        self.y as int
    }

    pub closed spec fn spec_width(self) -> int {
        self.width as int
    }

    pub closed spec fn spec_tc(self) -> int {
        self.timing_pattern_column as int
    }

    /// The cursor is in a state the walk can be in.
    pub open spec fn inv(self) -> bool {
        walk_state_inv(self.spec_x(), self.spec_y(), self.spec_width(), self.spec_tc())
            || walk_done(self.spec_x(), self.spec_tc())
    }

    /// The coordinates the cursor will still emit.
    pub open spec fn remaining(self) -> Seq<(int, int)> {
        walk_seq(self.spec_x(), self.spec_y(), self.spec_width(), self.spec_tc())
    }

    /// Starts the walk in the bottom-right corner of the symbol.
    pub fn new(version: Version) -> (it: DataModuleIter)
        requires
            version.valid(),
        ensures
            it.inv(),
            it.spec_width() == version.width_spec(),
            it.spec_tc() == version.timing_column_spec(),
            it.remaining() == walk_seq(
                version.width_spec() - 1,
                version.width_spec() - 1,
                version.width_spec(),
                version.timing_column_spec(),
            ),
    {
        let width = version.width();
        DataModuleIter {
            x: width - 1,
            y: width - 1,
            width,
            timing_pattern_column: version.timing_column(),
        }
    }

    /// Emits the next coordinate of the walk, or `None` once the walk
    /// has passed the left edge.
    pub fn next(&mut self) -> (r: Option<(i16, i16)>)
        requires
            old(self).inv(),
        ensures
            final(self).inv(),
            final(self).spec_width() == old(self).spec_width(),
            final(self).spec_tc() == old(self).spec_tc(),
            old(self).remaining().len() == 0 ==> r is None && final(self).remaining().len() == 0,
            old(self).remaining().len() > 0 ==> (r matches Some(p)
                && (p.0 as int, p.1 as int) == old(self).remaining()[0]
                && 0 <= p.0 < old(self).spec_width()
                && 0 <= p.1 < old(self).spec_width()
                && final(self).remaining() == old(self).remaining().drop_first()),
    {
        let adjusted_ref_col = if self.x <= self.timing_pattern_column {
            self.x + 1
        } else {
            self.x
        };
        if adjusted_ref_col <= 0 {
            return None;
        }
        proof {
            assert(walk_state_inv(self.spec_x(), self.spec_y(), self.spec_width(), self.spec_tc()));
            lemma_walk_step(self.spec_x(), self.spec_y(), self.spec_width(), self.spec_tc());
        }
        let ghost pre = *self;
        let res = (self.x, self.y);
        let column_type = (self.width - adjusted_ref_col) % 4;
        if column_type == 2 && self.y > 0 {
            self.y = self.y - 1;
            self.x = self.x + 1;
        } else if column_type == 0 && self.y < self.width - 1 {
            self.y = self.y + 1;
            self.x = self.x + 1;
        } else if (column_type == 0 || column_type == 2) && self.x == self.timing_pattern_column
            + 1 {
            self.x = self.x - 2;
        } else {
            self.x = self.x - 1;
        }
        proof {
            assert((self.spec_x(), self.spec_y()) == walk_step(pre.spec_x(), pre.spec_y(),
                pre.spec_width(), pre.spec_tc()));
            assert(pre.remaining() == seq![(pre.spec_x(), pre.spec_y())] + self.remaining());
            assert(self.remaining() =~= pre.remaining().drop_first());
        }
        Some(res)
    }
}


/// Whether the walk starting at state (x, y) still has cell (a, b) ahead
/// of it: the cell lies in a strip farther left, or in the current strip
/// on the side of the cursor the walk has not passed yet.
pub open spec fn walk_upcoming(x: int, y: int, w: int, tc: int, a: int, b: int) -> bool {
    let adj = walk_adj(x, tc);
    let c = (w - adj) % 4;
    let sa = walk_strip(a, tc);
    let sx = walk_strip(x, tc);
    &&& 0 <= a < w
    &&& a != tc
    &&& 0 <= b < w
    &&& (sa < sx || (sa == sx && (if c == 1 || c == 2 {
        b < y || (b == y && walk_adj(a, tc) <= adj)
    } else {
        b > y || (b == y && walk_adj(a, tc) <= adj)
    })))
}

/// Two distinct data columns count differently.
proof fn lemma_walk_adj_injective(a1: int, a2: int, tc: int)
    requires
        tc == 0 || tc == 6,
        a1 != tc,
        a2 != tc,
        -1 <= a1,
        -1 <= a2,
        walk_adj(a1, tc) == walk_adj(a2, tc),
    ensures
        a1 == a2,
{
}

/// One step of the walk removes exactly the cell it emits from the cells
/// ahead of it.
proof fn lemma_walk_upcoming_step(x: int, y: int, w: int, tc: int)
    requires
        walk_state_inv(x, y, w, tc),
        !walk_done(x, tc),
    ensures
        walk_upcoming(x, y, w, tc, x, y),
        forall|a: int, b: int| #[trigger] walk_upcoming(walk_step(x, y, w, tc).0, walk_step(x, y,
            w, tc).1, w, tc, a, b) <==> (walk_upcoming(x, y, w, tc, a, b) && !(a == x && b == y)),
{
    lemma_walk_step(x, y, w, tc);
    let adj = walk_adj(x, tc);
    let c = (w - adj) % 4;
    assert(w - adj == 4 * ((w - adj) / 4) + c);
    assert((c == 0 || c == 2) ==> adj % 2 == 1);
    assert((c == 1 || c == 3) ==> adj % 2 == 0);
    let nx = walk_step(x, y, w, tc).0;
    let ny = walk_step(x, y, w, tc).1;
    let nadj = walk_adj(nx, tc);
    let nc = (w - nadj) % 4;
    assert(w - nadj == 4 * ((w - nadj) / 4) + nc);
    assert forall|a: int, b: int| #[trigger] walk_upcoming(nx, ny, w, tc, a, b) <==> (
    walk_upcoming(x, y, w, tc, a, b) && !(a == x && b == y)) by {
        if 0 <= a < w && a != tc && 0 <= b < w {
            if walk_adj(a, tc) == walk_adj(x, tc) {
                lemma_walk_adj_injective(a, x, tc);
            }
            let sa = walk_strip(a, tc);
            let sx = walk_strip(x, tc);
            // Within one strip only two adjusted columns occur.
            assert(sa == sx ==> walk_adj(a, tc) == adj || walk_adj(a, tc) == adj + 1
                || walk_adj(a, tc) == adj - 1);
        }
    }
}

/// The walk emits exactly the cells ahead of its state, each once.
pub proof fn lemma_walk_exactly_once(x: int, y: int, w: int, tc: int)
    requires
        walk_state_inv(x, y, w, tc),
    ensures
        forall|k: int| 0 <= k < walk_seq(x, y, w, tc).len() ==> walk_upcoming(x, y, w, tc,
            (#[trigger] walk_seq(x, y, w, tc)[k]).0, walk_seq(x, y, w, tc)[k].1),
        forall|a: int, b: int| #[trigger] walk_upcoming(x, y, w, tc, a, b) ==> exists|k: int| 0
            <= k < walk_seq(x, y, w, tc).len() && walk_seq(x, y, w, tc)[k] == (a, b),
        forall|k1: int, k2: int| 0 <= k1 < k2 < walk_seq(x, y, w, tc).len()
            ==> #[trigger] walk_seq(x, y, w, tc)[k1] != #[trigger] walk_seq(x, y, w, tc)[k2],
    decreases walk_strip(x, tc), walk_psi(x, y, w, tc),
{
    let s = walk_seq(x, y, w, tc);
    if walk_done(x, tc) {
        assert(s.len() == 0);
        assert forall|a: int, b: int| #[trigger] walk_upcoming(x, y, w, tc, a, b) implies false by {
            assert(walk_adj(x, tc) <= 0);
            assert(walk_adj(a, tc) >= 1);
            assert(walk_strip(a, tc) >= 1);
            assert(walk_strip(x, tc) <= 0);
        }
    } else {
        lemma_walk_step(x, y, w, tc);
        lemma_walk_upcoming_step(x, y, w, tc);
        let nx = walk_step(x, y, w, tc).0;
        let ny = walk_step(x, y, w, tc).1;
        lemma_walk_exactly_once(nx, ny, w, tc);
        let t = walk_seq(nx, ny, w, tc);
        assert(s == seq![(x, y)] + t);
        assert(s[0] == (x, y));
        assert(forall|k: int| 1 <= k < s.len() ==> s[k] == #[trigger] t[k - 1]);
        assert forall|a: int, b: int| #[trigger] walk_upcoming(x, y, w, tc, a, b) implies exists|
            k: int| 0 <= k < s.len() && s[k] == (a, b) by {
            if a == x && b == y {
                assert(s[0] == (a, b));
            } else {
                assert(walk_upcoming(nx, ny, w, tc, a, b));
                let k = choose|k: int| 0 <= k < t.len() && t[k] == (a, b);
                assert(s[k + 1] == (a, b));
            }
        }
        assert forall|k1: int, k2: int| 0 <= k1 < k2 < s.len() implies #[trigger] s[k1]
            != #[trigger] s[k2] by {
            if k1 == 0 {
                assert(s[k2] == t[k2 - 1]);
                assert(walk_upcoming(nx, ny, w, tc, t[k2 - 1].0, t[k2 - 1].1));
            }
        }
    }
}

/// From its starting corner the walk has every cell of the symbol ahead
/// of it except the vertical timing column.
pub proof fn lemma_walk_initial_coverage(w: int, tc: int)
    requires
        walk_state_inv(w - 1, w - 1, w, tc),
    ensures
        forall|a: int, b: int| #[trigger] walk_upcoming(w - 1, w - 1, w, tc, a, b) <==> (0 <= a
            < w && a != tc && 0 <= b < w),
{
    assert forall|a: int, b: int| (0 <= a < w && a != tc && 0 <= b < w)
        implies #[trigger] walk_upcoming(w - 1, w - 1, w, tc, a, b) by {
        assert(walk_adj(a, tc) <= w - 1);
        assert(walk_strip(a, tc) <= walk_strip(w - 1, tc));
    }
}


/// How many coordinates are left from a state: the emissions remaining
/// in the current strip plus two columns' worth for every strip left of
/// it.
pub open spec fn walk_remaining(x: int, y: int, w: int, tc: int) -> int {
    if walk_done(x, tc) {
        0
    } else {
        walk_psi(x, y, w, tc) + 1 + 2 * w * (walk_strip(x, tc) - 1)
    }
}

/// The walk emits exactly as many coordinates as remain from its state.
pub proof fn lemma_walk_seq_len(x: int, y: int, w: int, tc: int)
    requires
        walk_state_inv(x, y, w, tc),
    ensures
        walk_seq(x, y, w, tc).len() == walk_remaining(x, y, w, tc),
    decreases walk_strip(x, tc), walk_psi(x, y, w, tc),
{
    if walk_done(x, tc) {
    } else {
        lemma_walk_step(x, y, w, tc);
        let adj = walk_adj(x, tc);
        let c = (w - adj) % 4;
        assert(w - adj == 4 * ((w - adj) / 4) + c);
        assert((c == 0 || c == 2) ==> adj % 2 == 1);
        assert((c == 1 || c == 3) ==> adj % 2 == 0);
        let nx = walk_step(x, y, w, tc).0;
        let ny = walk_step(x, y, w, tc).1;
        lemma_walk_seq_len(nx, ny, w, tc);
        let nadj = walk_adj(nx, tc);
        let nc = (w - nadj) % 4;
        assert(w - nadj == 4 * ((w - nadj) / 4) + nc);
        let s_ = walk_strip(x, tc);
        let ns = walk_strip(nx, tc);
        if c == 2 && y > 0 {
            assert(nadj == adj + 1);
            assert((w - adj - 1) % 4 == 1);
            assert(ns == s_);
            assert(walk_psi(nx, ny, w, tc) == walk_psi(x, y, w, tc) - 1);
        } else if c == 0 && y < w - 1 {
            assert(nadj == adj + 1);
            assert((w - adj - 1) % 4 == 3);
            assert(ns == s_);
            assert(walk_psi(nx, ny, w, tc) == walk_psi(x, y, w, tc) - 1);
        } else {
            // The cursor leaves its strip, either over the timing column
            // or into the next column.
            if (c == 0 || c == 2) && x == tc + 1 {
                assert(nadj == adj - 1);
            } else {
                assert(x != tc + 1);
                assert(nadj == adj - 1);
                if c == 1 {
                    assert((w - adj + 1) % 4 == 2);
                    assert(ns == s_);
                    assert(walk_psi(nx, ny, w, tc) == walk_psi(x, y, w, tc) - 1);
                }
                if c == 3 {
                    assert((w - adj + 1) % 4 == 0);
                    assert(ns == s_);
                    assert(walk_psi(nx, ny, w, tc) == walk_psi(x, y, w, tc) - 1);
                }
            }
            if c == 0 || c == 2 {
                assert(walk_psi(x, y, w, tc) == 0);
                if nadj > 0 {
                    assert(nc == c + 1);
                    assert(ns == s_ - 1);
                    assert(walk_psi(nx, ny, w, tc) == 2 * (w - 1) + 1);
                    assert(walk_remaining(nx, ny, w, tc) == 2 * w + 2 * w * (s_ - 2));
                    assert(2 * w + 2 * w * (s_ - 2) == 2 * w * (s_ - 1) - 0) by (nonlinear_arith);
                } else {
                    assert(s_ == 1);
                    assert(walk_remaining(nx, ny, w, tc) == 0);
                    assert(2 * w * (s_ - 1) == 0) by (nonlinear_arith)
                        requires s_ == 1;
                }
            }
        }
    }
}

/// Over a full iteration the walk visits one coordinate for every module
/// of the symbol outside the vertical timing column.
pub proof fn lemma_walk_length(w: int, tc: int)
    requires
        walk_state_inv(w - 1, w - 1, w, tc),
    ensures
        walk_seq(w - 1, w - 1, w, tc).len() == w * (w - 1),
{
    lemma_walk_seq_len(w - 1, w - 1, w, tc);
    assert(walk_adj(w - 1, tc) == w - 1);
    assert((w - (w - 1)) % 4 == 1);
    assert(walk_strip(w - 1, tc) == w / 2);
    assert(walk_psi(w - 1, w - 1, w, tc) == 2 * (w - 1) + 1);
    assert(2 * w - 1 + 1 + 2 * w * (w / 2 - 1) == w * (w - 1)) by (nonlinear_arith)
        requires w % 2 == 1, 11 <= w;
}

} // verus!
