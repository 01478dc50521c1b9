//! The pattern source that feeds the scrolling banner: a fixed glyph block
//! is cut into vertical slices (one column across all rows), and the slices
//! are handed out endlessly in a cycle of `block_width + gap` steps, the
//! last `gap` of which are blank.
use vstd::prelude::*;
use vstd::arithmetic::div_mod::{lemma_add_mod_noop_right, lemma_fundamental_div_mod,
    lemma_mod_multiples_vanish, lemma_mod_self_0, lemma_small_mod};

verus! {

/// Width of the widest row of the built-in glyph blocks.
pub const BLOCK_WIDTH: usize = 43;

/// Error raised once, at construction, for a glyph block that cannot be
/// animated: no rows, or no row with any characters.
#[derive(Clone, Copy, Debug, PartialEq, Eq, Structural)]
pub enum PatternError {
    DegenerateBlock,
}

/// The character rows a vector of rows holds.
pub open spec fn rows_of(v: Seq<Vec<char>>) -> Seq<Seq<char>> {
    Seq::new(v.len(), |i: int| v[i]@)
}

/// A slice of `h` blank cells.
pub open spec fn blank_slice(h: nat) -> Seq<char> {
    Seq::new(h, |i: int| ' ')
}

/// Length of the longest row of a glyph block.
pub open spec fn max_row_len(rows: Seq<Seq<char>>) -> nat
    decreases rows.len(),
{
    if rows.len() == 0 {
        0
    } else {
        let m = max_row_len(rows.drop_last());
        if rows.last().len() > m {
            rows.last().len()
        } else {
            m
        }
    }
}

/// The vertical slice of a glyph block at horizontal offset `i`: one cell
/// per row, blank where the row is shorter than the offset.
pub open spec fn slice_of(rows: Seq<Seq<char>>, i: int) -> Seq<char> {
    Seq::new(rows.len(), |j: int| if i < rows[j].len() { rows[j][i] } else { ' ' })
}

proof fn lemma_max_row_len_bounds(rows: Seq<Seq<char>>)
    ensures
        forall|j: int| 0 <= j < rows.len() ==> rows[j].len() <= max_row_len(rows),
        rows.len() > 0 ==> exists|j: int|
            0 <= j < rows.len() && max_row_len(rows) == rows[j].len(),
        rows.len() == 0 ==> max_row_len(rows) == 0,
    decreases rows.len(),
{
    if rows.len() > 0 {
        lemma_max_row_len_bounds(rows.drop_last());
        assert(forall|j: int| 0 <= j < rows.len() - 1 ==> rows.drop_last()[j] == rows[j]);
        assert(rows.last() == rows[rows.len() - 1]);
    }
}

/// The characters of a string, as a vector.
pub fn str_chars(s: &str) -> (v: Vec<char>)
    ensures
        v@ == s@,
{
    let n = s.unicode_len();
    let mut v: Vec<char> = Vec::new();
    let mut i: usize = 0;
    while i < n
        invariant
            i <= n,
            n == s@.len(),
            v@ == s@.subrange(0, i as int),
        decreases n - i,
    {
        let c = s.get_char(i);
        v.push(c);
        proof {
            assert(v@ =~= s@.subrange(0, i + 1));
        }
        i += 1;
    }
    proof {
        assert(v@ =~= s@);
    }
    v
}

/// The built-in "away" glyph block, row by row.
pub open spec fn afk_block() -> Seq<Seq<char>> {
    seq![
        "                ______________    __    ___"@,
        "       /\\      |__    ______  |  |  |  /  /"@,
        "      /  \\        |  |      |_|  |  | /  / "@,
        "     /    \\       |  |    _      |  |/  /  "@,
        "    /  /\\  \\      |  |___| |     |  '  /   "@,
        "   /  /__\\  \\     |   _____|     |  .  \\   "@,
        "  /  ______  \\    |  |           |  |\\  \\  "@,
        " /  /      \\  \\   |  |           |  | \\  \\ "@,
        "/__/        \\__\\  |__|           |__|  \\__\\"@,
        "                                           "@,
    ]
}

/// Builds the "away" glyph block.
pub fn afk_rows() -> (rows: Vec<Vec<char>>)
    ensures
        rows_of(rows@) == afk_block(),
        rows@.len() == 10,
{
    let mut rows: Vec<Vec<char>> = Vec::new();
    rows.push(str_chars("                ______________    __    ___"));
    rows.push(str_chars("       /\\      |__    ______  |  |  |  /  /"));
    rows.push(str_chars("      /  \\        |  |      |_|  |  | /  / "));
    rows.push(str_chars("     /    \\       |  |    _      |  |/  /  "));
    rows.push(str_chars("    /  /\\  \\      |  |___| |     |  '  /   "));
    rows.push(str_chars("   /  /__\\  \\     |   _____|     |  .  \\   "));
    rows.push(str_chars("  /  ______  \\    |  |           |  |\\  \\  "));
    rows.push(str_chars(" /  /      \\  \\   |  |           |  | \\  \\ "));
    rows.push(str_chars("/__/        \\__\\  |__|           |__|  \\__\\"));
    rows.push(str_chars("                                           "));
    proof {
        assert(rows_of(rows@) =~= afk_block());
    }
    rows
}

/// Facts about the built-in "away" block: ten rows, each 43 cells wide.
proof fn lemma_afk_block_shape()
    ensures
        afk_block().len() == 10,
        max_row_len(afk_block()) == BLOCK_WIDTH,
        forall|j: int| 0 <= j < 10 ==> #[trigger] afk_block()[j].len() == BLOCK_WIDTH,
{
    reveal_strlit("                ______________    __    ___");
    reveal_strlit("       /\\      |__    ______  |  |  |  /  /");
    reveal_strlit("      /  \\        |  |      |_|  |  | /  / ");
    reveal_strlit("     /    \\       |  |    _      |  |/  /  ");
    reveal_strlit("    /  /\\  \\      |  |___| |     |  '  /   ");
    reveal_strlit("   /  /__\\  \\     |   _____|     |  .  \\   ");
    reveal_strlit("  /  ______  \\    |  |           |  |\\  \\  ");
    reveal_strlit(" /  /      \\  \\   |  |           |  | \\  \\ ");
    reveal_strlit("/__/        \\__\\  |__|           |__|  \\__\\");
    reveal_strlit("                                           ");
    let b = afk_block();
    assert(b[0].len() == 43);
    assert(b[1].len() == 43);
    assert(b[2].len() == 43);
    assert(b[3].len() == 43);
    assert(b[4].len() == 43);
    assert(b[5].len() == 43);
    assert(b[6].len() == 43);
    assert(b[7].len() == 43);
    assert(b[8].len() == 43);
    assert(b[9].len() == 43);
    lemma_max_row_len_bounds(b);
}

/// The endless source of vertical slices, scanned from a glyph block.
pub struct AfkAA {
    idx: usize,
    interval: usize,
    afk_verticals: Vec<Vec<char>>,
}

impl AfkAA {
    /// The glyph block's vertical slices, in order.
    pub closed spec fn verts(&self) -> Seq<Seq<char>> {
        rows_of(self.afk_verticals@)
    }

    /// The position in the cycle the next slice is taken from.
    pub closed spec fn idx_spec(&self) -> int {
        self.idx as int
    }

    /// The number of blank slices between repetitions of the block.
    pub closed spec fn interval_spec(&self) -> int {
        self.interval as int
    }

    /// Length of one full cycle: the block's width plus the gap.
    pub open spec fn period(&self) -> int {
        self.verts().len() + self.interval_spec()
    }

    /// Number of rows of the glyph block, fixed at construction.
    pub open spec fn height_spec(&self) -> int {
        self.verts()[0].len() as int
    }

    pub open spec fn wf(&self) -> bool {
        &&& self.verts().len() > 0
        &&& self.height_spec() > 0
        &&& forall|i: int|
            0 <= i < self.verts().len() ==> (#[trigger] self.verts()[i]).len()
                == self.height_spec()
        &&& 0 <= self.idx_spec() < self.period()
        &&& self.period() <= usize::MAX
    }

    /// The slice that position `k` of the cycle holds: a block column while
    /// `k` is inside the block, blank during the gap.
    pub open spec fn slice_at(&self, k: int) -> Seq<char> {
        if k < self.verts().len() {
            self.verts()[k]
        } else {
            blank_slice(self.height_spec() as nat)
        }
    }

    /// The slice the source emits now.
    pub open spec fn current_slice(&self) -> Seq<char> {
        self.slice_at(self.idx_spec())
    }

    /// The slice the source will emit on its `t`-th upcoming call.
    pub open spec fn emitted_at(&self, t: nat) -> Seq<char> {
        self.slice_at((self.idx_spec() + t) % self.period())
    }

    /// Builds a source from a glyph block and a gap length. Rows may differ
    /// in length; missing cells read as blank. A block with no rows or with
    /// no characters in any row is refused.
    pub fn from_rows(rows: &Vec<Vec<char>>, interval: usize) -> (r: Result<AfkAA, PatternError>)
        requires
            max_row_len(rows_of(rows@)) + interval <= usize::MAX,
        ensures
            r.is_ok() <==> (rows@.len() > 0 && max_row_len(rows_of(rows@)) > 0),
            match r {
                Ok(p) => {
                    &&& p.wf()
                    &&& p.idx_spec() == 0
                    &&& p.interval_spec() == interval
                    &&& p.height_spec() == rows@.len()
                    &&& p.verts().len() == max_row_len(rows_of(rows@))
                    &&& forall|i: int|
                        0 <= i < p.verts().len() ==> #[trigger] p.verts()[i] == slice_of(
                            rows_of(rows@),
                            i,
                        )
                },
                Err(e) => e == PatternError::DegenerateBlock,
            },
    {
        let ghost grows = rows_of(rows@);
        let mut max_len: usize = 0;
        let mut j: usize = 0;
        while j < rows.len()
            invariant
                j <= rows@.len(),
                grows == rows_of(rows@),
                max_len == max_row_len(grows.subrange(0, j as int)),
            decreases rows@.len() - j,
        {
            let l = rows[j].len();
            proof {
                assert(grows.subrange(0, j + 1).drop_last() =~= grows.subrange(0, j as int));
                assert(grows.subrange(0, j + 1).last() == grows[j as int]);
            }
            if l > max_len {
                max_len = l;
            }
            j += 1;
        }
        proof {
            assert(grows.subrange(0, grows.len() as int) =~= grows);
        }
        if rows.len() == 0 || max_len == 0 {
            return Err(PatternError::DegenerateBlock);
        }
        let mut verticals: Vec<Vec<char>> = Vec::new();
        let mut i: usize = 0;
        while i < max_len
            invariant
                i <= max_len,
                grows == rows_of(rows@),
                max_len == max_row_len(grows),
                rows@.len() > 0,
                rows_of(verticals@).len() == i,
                forall|k: int|
                    0 <= k < i ==> #[trigger] rows_of(verticals@)[k] == slice_of(grows, k),
            decreases max_len - i,
        {
            let mut col: Vec<char> = Vec::new();
            let mut j2: usize = 0;
            while j2 < rows.len()
                invariant
                    j2 <= rows@.len(),
                    grows == rows_of(rows@),
                    col@.len() == j2,
                    forall|t: int| 0 <= t < j2 ==> col@[t] == slice_of(grows, i as int)[t],
                decreases rows@.len() - j2,
            {
                if i < rows[j2].len() {
                    let c = rows[j2][i];
                    col.push(c);
                } else {
                    col.push(' ');
                }
                j2 += 1;
            }
            proof {
                assert(col@ =~= slice_of(grows, i as int));
            }
            let ghost pre = verticals@;
            verticals.push(col);
            proof {
                assert forall|k: int| 0 <= k <= i implies #[trigger] rows_of(verticals@)[k]
                    == slice_of(grows, k) by {
                    if k < i {
                        assert(verticals@[k] == pre[k]);
                        assert(rows_of(pre)[k] == slice_of(grows, k));
                    } else {
                        assert(rows_of(verticals@)[k] == col@);
                    }
                };
            }
            i += 1;
        }
        let p = AfkAA { idx: 0, interval, afk_verticals: verticals };
        proof {
            lemma_max_row_len_bounds(grows);
            assert(p.verts()[0] == slice_of(grows, 0));
            assert(forall|k: int|
                0 <= k < p.verts().len() ==> (#[trigger] p.verts()[k]).len() == rows@.len());
        }
        Ok(p)
    }

    /// Builds the source for the built-in "away" block with the given gap.
    pub fn new(interval: usize) -> (r: Result<AfkAA, PatternError>)
        requires
            interval <= usize::MAX - BLOCK_WIDTH,
        ensures
            match r {
                Ok(p) => {
                    &&& p.wf()
                    &&& p.idx_spec() == 0
                    &&& p.interval_spec() == interval
                    &&& p.height_spec() == afk_block().len()
                    &&& p.verts().len() == BLOCK_WIDTH
                    &&& forall|i: int|
                        0 <= i < p.verts().len() ==> #[trigger] p.verts()[i] == slice_of(
                            afk_block(),
                            i,
                        )
                },
                Err(_) => false,
            },
    {
        proof {
            lemma_afk_block_shape();
        }
        let rows = afk_rows();
        AfkAA::from_rows(&rows, interval)
    }

    /// Number of rows of the glyph block.
    pub fn height(&self) -> (h: usize)
        requires
            self.wf(),
        ensures
            h == self.height_spec(),
    {
        self.afk_verticals[0].len()
    }

    /// Emits the slice at the current position and moves one step along the
    /// cycle, wrapping after the gap.
    pub fn next(&mut self) -> (ret: Vec<char>)
        requires
            old(self).wf(),
        ensures
            final(self).wf(),
            ret@ == old(self).current_slice(),
            ret@.len() == old(self).height_spec(),
            final(self).verts() == old(self).verts(),
            final(self).interval_spec() == old(self).interval_spec(),
            final(self).idx_spec() == (old(self).idx_spec() + 1) % old(self).period(),
    {
        let h = self.afk_verticals[0].len();
        let mut ret: Vec<char> = Vec::new();
        if self.idx < self.afk_verticals.len() {
            let mut j: usize = 0;
            while j < h
                invariant
                    j <= h,
                    self.wf(),
                    h == self.height_spec(),
                    self.idx_spec() < self.verts().len(),
                    ret@ == self.verts()[self.idx_spec()].subrange(0, j as int),
                decreases h - j,
            {
                let c = self.afk_verticals[self.idx][j];
                ret.push(c);
                proof {
                    assert(ret@ =~= self.verts()[self.idx_spec()].subrange(0, j + 1));
                }
                j += 1;
            }
            proof {
                assert(ret@ =~= self.current_slice());
            }
        } else {
            let mut j: usize = 0;
            while j < h
                invariant
                    j <= h,
                    ret@ == blank_slice(j as nat),
                decreases h - j,
            {
                ret.push(' ');
                proof {
                    assert(ret@ =~= blank_slice((j + 1) as nat));
                }
                j += 1;
            }
            proof {
                assert(ret@ =~= self.current_slice());
            }
        }
        self.idx += 1;
        if self.afk_verticals.len() + self.interval == self.idx {
            self.idx = 0;
        }
        proof {
            let p = old(self).period();
            if old(self).idx_spec() + 1 == p {
                lemma_mod_self_0(p);
            } else {
                lemma_small_mod((old(self).idx + 1) as nat, p as nat);
            }
        }
        ret
    }
}

/// Law: the stream of slices is periodic with period `block_width + gap`;
/// a position inside the block shows that block column, a position in the
/// gap shows a blank slice.
pub proof fn lemma_slices_periodic(p: AfkAA, t: nat)
    requires
        p.wf(),
    ensures
        p.emitted_at(t + p.period() as nat) == p.emitted_at(t),
        (p.idx_spec() + t) % p.period() < p.verts().len() ==> p.emitted_at(t) == p.verts()[(
        p.idx_spec() + t) % p.period()],
        (p.idx_spec() + t) % p.period() >= p.verts().len() ==> p.emitted_at(t) == blank_slice(
            p.height_spec() as nat,
        ),
{
    lemma_mod_multiples_vanish(1, p.idx_spec() + t, p.period());
}

/// Law: one call shifts the stream by one: what the source would have
/// emitted on call `t + 1` before a call of `next`, it emits on call `t`
/// after it.
pub proof fn lemma_next_shifts_stream(pre: AfkAA, post: AfkAA, t: nat)
    requires
        pre.wf(),
        post.verts() == pre.verts(),
        post.interval_spec() == pre.interval_spec(),
        post.idx_spec() == (pre.idx_spec() + 1) % pre.period(),
    ensures
        post.emitted_at(t) == pre.emitted_at(t + 1),
{
    let p = pre.period();
    lemma_fundamental_div_mod(pre.idx_spec() + 1, p);
    lemma_add_mod_noop_right(t as int, pre.idx_spec() + 1, p);
    assert(((pre.idx_spec() + 1) % p + t) % p == (pre.idx_spec() + 1 + t) % p);
}

} // verus!
