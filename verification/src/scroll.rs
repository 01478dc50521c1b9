//! The sliding window that turns the endless slice stream into frames: on
//! every tick it grows by fresh slices until it reaches the requested
//! width, evicts from the oldest edge until it falls below it, and
//! serializes the window to one string per row.
use vstd::prelude::*;
use std::collections::VecDeque;

use crate::ansi::{chars_to_string, push_styled, styled_cell};
use crate::color::{Colorizer, Rgb, emitted_seq, iter_state};
use crate::pattern::{AfkAA, PatternError};
use vstd::arithmetic::div_mod::{lemma_add_mod_noop_right, lemma_small_mod};

verus! {

/// How a cell is serialized: blank cells stay bare, others are painted.
pub open spec fn painted_cell(c: Rgb, ch: char) -> Seq<char> {
    if ch == ' ' {
        seq![' ']
    } else {
        styled_cell(c, ch)
    }
}

/// A whole row serialized with its colors, cell by cell.
pub open spec fn painted_row(row: Seq<char>, colors: Seq<Rgb>) -> Seq<char>
    decreases row.len(),
{
    if row.len() == 0 {
        Seq::empty()
    } else {
        painted_row(row.drop_last(), colors.drop_last()) + painted_cell(colors.last(), row.last())
    }
}

/// What one window row serializes to: its bare characters with coloring
/// off, the painted cells with coloring on.
pub open spec fn rendered_row(row: Seq<char>, colors: Seq<Rgb>, colored: bool) -> Seq<char> {
    if colored {
        painted_row(row, colors)
    } else {
        row
    }
}

/// How many slices one `update` pulls: always at least one, and as many as
/// it takes to reach the requested width.
pub open spec fn grow_steps(w0: int, limit: int) -> int {
    if w0 + 1 >= limit {
        1
    } else {
        limit - w0
    }
}

/// How many columns one `update` evicts: always at least one, down to one
/// column short of the requested width.
pub open spec fn evict_steps(w0: int, limit: int) -> int {
    grow_steps(w0, limit) + w0 - (limit - 1)
}

/// The cells row `i` gains when `g` slices are pulled in order.
pub open spec fn appended_cells(p: AfkAA, i: int, g: nat) -> Seq<char> {
    Seq::new(g, |t: int| p.emitted_at(t as nat)[i])
}

/// Error for an eviction from an empty window; the reconciliation below
/// proves it can never arise from `update`.
#[derive(Clone, Copy, Debug, PartialEq, Eq, Structural)]
pub enum ScrollError {
    EmptyWindow,
}

/// Whether a window cell can have come from the pattern: it is blank or a
/// cell of row `i` of some slice of the block.
pub open spec fn cell_ok(p: AfkAA, i: int, c: char) -> bool {
    c == ' ' || exists|k: int| 0 <= k < p.verts().len() && p.verts()[k][i] == c
}

/// The scroll window: one character buffer per glyph row, a parallel color
/// buffer when coloring is on, and the two generators it pulls from.
pub struct Lines {
    lines: Vec<VecDeque<char>>,
    colors: VecDeque<Rgb>,
    afk_aa: AfkAA,
    colorizer: Colorizer,
    colored: bool,
}

impl Lines {
    /// The window's rows, oldest column first.
    pub closed spec fn rows(&self) -> Seq<Seq<char>> {
        Seq::new(self.lines@.len() as nat, |i: int| self.lines@[i]@)
    }

    /// The color of each window column, when coloring is on.
    pub closed spec fn color_buf(&self) -> Seq<Rgb> {
        self.colors@
    }

    /// The pattern source the window pulls slices from.
    pub closed spec fn pattern(&self) -> AfkAA {
        self.afk_aa
    }

    /// The color sweep's state, as channel values and active channel.
    pub closed spec fn sweep(&self) -> (Seq<u8>, int) {
        (self.colorizer.channels(), self.colorizer.active())
    }

    /// Whether coloring is on.
    pub closed spec fn colored_spec(&self) -> bool {
        self.colored
    }

    /// Number of rows, fixed at construction.
    pub open spec fn height(&self) -> int {
        self.rows().len() as int
    }

    /// Number of columns currently held.
    pub open spec fn width(&self) -> int {
        self.rows()[0].len() as int
    }

    pub open spec fn wf(&self) -> bool {
        &&& self.pattern().wf()
        &&& crate::color::wf_state(self.sweep().0, self.sweep().1)
        &&& self.height() == self.pattern().height_spec()
        &&& self.height() > 0
        &&& forall|i: int|
            0 <= i < self.height() ==> (#[trigger] self.rows()[i]).len() == self.width()
        &&& self.colored_spec() ==> self.color_buf().len() == self.width()
        &&& !self.colored_spec() ==> self.color_buf().len() == 0
        &&& forall|i: int, j: int|
            0 <= i < self.height() && 0 <= j < self.width() ==> cell_ok(
                self.pattern(),
                i,
                #[trigger] self.rows()[i][j],
            )
    }

    /// Builds an empty window over the built-in "away" block with a gap of
    /// twenty blank columns, with coloring on or off.
    pub fn new(colored: bool) -> (r: Result<Lines, PatternError>)
        ensures
            r.is_ok(),
            match r {
                Ok(l) => {
                    &&& l.wf()
                    &&& l.width() == 0
                    &&& l.colored_spec() == colored
                    &&& l.height() == crate::pattern::afk_block().len()
                    &&& l.pattern().idx_spec() == 0
                    &&& l.pattern().interval_spec() == 20
                    &&& l.pattern().verts().len() == crate::pattern::BLOCK_WIDTH
                    &&& forall|i: int|
                        0 <= i < l.pattern().verts().len() ==> #[trigger] l.pattern().verts()[i]
                            == crate::pattern::slice_of(crate::pattern::afk_block(), i)
                    &&& l.sweep() == (
                        seq![
                            crate::color::COLOR_MIN,
                            crate::color::COLOR_MAX,
                            crate::color::COLOR_MAX,
                        ],
                        0int,
                    )
                },
                Err(_) => false,
            },
    {
        let afk_aa = match AfkAA::new(20) {
            Ok(a) => a,
            Err(e) => {
                return Err(e);
            },
        };
        Ok(Lines::from_pattern(afk_aa, colored))
    }

    /// Builds an empty window over any well-formed pattern source.
    pub fn from_pattern(afk_aa: AfkAA, colored: bool) -> (l: Lines)
        requires
            afk_aa.wf(),
        ensures
            l.wf(),
            l.width() == 0,
            l.colored_spec() == colored,
            l.pattern() == afk_aa,
            l.height() == afk_aa.height_spec(),
            l.sweep() == (
                seq![crate::color::COLOR_MIN, crate::color::COLOR_MAX, crate::color::COLOR_MAX],
                0int,
            ),
    {
        let h = afk_aa.height();
        let mut lines: Vec<VecDeque<char>> = Vec::new();
        let mut i: usize = 0;
        while i < h
            invariant
                i <= h,
                lines@.len() == i,
                forall|k: int| 0 <= k < i ==> (#[trigger] lines@[k])@.len() == 0,
            decreases h - i,
        {
            lines.push(VecDeque::new());
            i += 1;
        }
        let l = Lines {
            lines,
            colors: VecDeque::new(),
            afk_aa,
            colorizer: Colorizer::new(),
            colored,
        };
        proof {
            assert(l.rows()[0].len() == 0);
        }
        l
    }

    /// Pulls one slice from the pattern and appends it as a new column at
    /// the window's newest edge; with coloring on, draws eight samples from
    /// the sweep, appends them to the color buffer, and keeps only the
    /// buffer's suffix that leaves one net new element.
    pub fn add_vertical_line(&mut self) -> (w: usize)
        requires
            old(self).wf(),
            old(self).width() < usize::MAX,
        ensures
            final(self).wf(),
            w == final(self).width(),
            final(self).width() == old(self).width() + 1,
            final(self).height() == old(self).height(),
            final(self).colored_spec() == old(self).colored_spec(),
            forall|i: int|
                0 <= i < final(self).height() ==> #[trigger] final(self).rows()[i] == old(
                    self,
                ).rows()[i].push(old(self).pattern().current_slice()[i]),
            final(self).pattern().verts() == old(self).pattern().verts(),
            final(self).pattern().interval_spec() == old(self).pattern().interval_spec(),
            final(self).pattern().idx_spec() == (old(self).pattern().idx_spec() + 1) % old(
                self,
            ).pattern().period(),
            old(self).colored_spec() ==> final(self).color_buf() == (old(self).color_buf()
                + emitted_seq(old(self).sweep().0, old(self).sweep().1, 8)).skip(7),
            old(self).colored_spec() ==> final(self).sweep() == iter_state(
                old(self).sweep().0,
                old(self).sweep().1,
                8,
            ),
            !old(self).colored_spec() ==> final(self).color_buf() == old(self).color_buf()
                && final(self).sweep() == old(self).sweep(),
    {
        let nxt = self.afk_aa.next();
        let ghost nxt_seq = nxt@;
        let ghost mid = *self;
        let h = self.lines.len();
        let mut i: usize = 0;
        while i < h
            invariant
                i <= h,
                h == self.lines@.len(),
                h == nxt_seq.len(),
                nxt@ == nxt_seq,
                self.colors == mid.colors,
                self.afk_aa == mid.afk_aa,
                self.colorizer == mid.colorizer,
                self.colored == mid.colored,
                forall|k: int|
                    0 <= k < i ==> (#[trigger] self.lines@[k])@ == mid.lines@[k]@.push(nxt_seq[k]),
                forall|k: int| i <= k < h ==> #[trigger] self.lines@[k] == mid.lines@[k],
            decreases h - i,
        {
            let c = nxt[i];
            self.lines[i].push_back(c);
            i += 1;
        }
        if self.colored {
            let ghost cpre = *self;
            let mut k: usize = 0;
            while k < 8
                invariant
                    k <= 8,
                    self.lines == cpre.lines,
                    self.afk_aa == cpre.afk_aa,
                    self.colored == cpre.colored,
                    self.colorizer.wf(),
                    (self.colorizer.channels(), self.colorizer.active()) == iter_state(
                        cpre.colorizer.channels(),
                        cpre.colorizer.active(),
                        k as nat,
                    ),
                    self.colors@ == cpre.colors@ + emitted_seq(
                        cpre.colorizer.channels(),
                        cpre.colorizer.active(),
                        k as nat,
                    ),
                decreases 8 - k,
            {
                let s = self.colorizer.next();
                self.colors.push_back(s);
                proof {
                    assert(self.colors@ =~= cpre.colors@ + emitted_seq(
                        cpre.colorizer.channels(),
                        cpre.colorizer.active(),
                        (k + 1) as nat,
                    ));
                }
                k += 1;
            }
            let rest = self.colors.split_off(7);
            self.colors = rest;
        }
        let w = self.lines[0].len();
        proof {
            assert(forall|i: int|
                0 <= i < final(self).height() ==> #[trigger] final(self).rows()[i] == old(
                    self,
                ).rows()[i].push(old(self).pattern().current_slice()[i]));
            assert forall|i: int, j: int|
                0 <= i < final(self).height() && 0 <= j < final(self).width() implies cell_ok(
                final(self).afk_aa,
                i,
                final(self).rows()[i][j],
            ) by {
                if j < old(self).width() {
                    assert(cell_ok(old(self).afk_aa, i, old(self).rows()[i][j]));
                } else {
                    assert(final(self).rows()[i][j] == old(self).pattern().current_slice()[i]);
                    let p = old(self).pattern();
                    if p.idx_spec() < p.verts().len() {
                        assert(p.verts()[p.idx_spec()][i] == p.current_slice()[i]);
                    }
                }
            };
        }
        w
    }

    /// Evicts the oldest column from every row, and its color when coloring
    /// is on; an empty window is reported as a fault instead.
    pub fn remove_first_vertical_line(&mut self) -> (r: Result<usize, ScrollError>)
        requires
            old(self).wf(),
        ensures
            r.is_ok() <==> old(self).width() > 0,
            match r {
                Ok(w) => {
                    &&& final(self).wf()
                    &&& w == final(self).width()
                    &&& final(self).width() == old(self).width() - 1
                    &&& final(self).height() == old(self).height()
                    &&& final(self).colored_spec() == old(self).colored_spec()
                    &&& forall|i: int|
                        0 <= i < final(self).height() ==> #[trigger] final(self).rows()[i] == old(
                            self,
                        ).rows()[i].skip(1)
                    &&& final(self).pattern() == old(self).pattern()
                    &&& final(self).sweep() == old(self).sweep()
                    &&& old(self).colored_spec() ==> final(self).color_buf() == old(
                        self,
                    ).color_buf().skip(1)
                    &&& !old(self).colored_spec() ==> final(self).color_buf() == old(
                        self,
                    ).color_buf()
                },
                Err(e) => {
                    &&& e == ScrollError::EmptyWindow
                    &&& *final(self) == *old(self)
                },
            },
    {
        if self.lines[0].len() == 0 {
            return Err(ScrollError::EmptyWindow);
        }
        let ghost mid = *self;
        let h = self.lines.len();
        let mut i: usize = 0;
        while i < h
            invariant
                i <= h,
                h == self.lines@.len(),
                mid.wf(),
                mid.width() > 0,
                h == mid.lines@.len(),
                self.colors == mid.colors,
                self.afk_aa == mid.afk_aa,
                self.colorizer == mid.colorizer,
                self.colored == mid.colored,
                forall|k: int|
                    0 <= k < i ==> (#[trigger] self.lines@[k])@ == mid.lines@[k]@.skip(1),
                forall|k: int| i <= k < h ==> #[trigger] self.lines@[k] == mid.lines@[k],
            decreases h - i,
        {
            proof {
                assert(mid.rows()[i as int].len() == mid.width());
            }
            let _ = self.lines[i].pop_front();
            proof {
                assert(self.lines@[i as int]@ =~= mid.lines@[i as int]@.skip(1));
            }
            i += 1;
        }
        if self.colored {
            let _ = self.colors.pop_front();
            proof {
                assert(self.colors@ =~= mid.colors@.skip(1));
            }
        }
        let w = self.lines[0].len();
        proof {
            assert(forall|i: int|
                0 <= i < final(self).height() ==> #[trigger] final(self).rows()[i] == old(
                    self,
                ).rows()[i].skip(1));
            assert forall|i: int, j: int|
                0 <= i < final(self).height() && 0 <= j < final(self).width() implies cell_ok(
                final(self).afk_aa,
                i,
                final(self).rows()[i][j],
            ) by {
                assert(final(self).rows()[i][j] == old(self).rows()[i][j + 1]);
                assert(cell_ok(old(self).afk_aa, i, old(self).rows()[i][j + 1]));
            };
        }
        Ok(w)
    }

    /// Serializes the window to one string per row: bare characters with
    /// coloring off; with coloring on, each non-blank cell is painted with
    /// its column's color and blank cells are left bare.
    pub fn to_strings(&self) -> (out: Vec<String>)
        requires
            self.wf(),
        ensures
            out@.len() == self.height(),
            forall|i: int|
                0 <= i < self.height() ==> (#[trigger] out@[i])@ == rendered_row(
                    self.rows()[i],
                    self.color_buf(),
                    self.colored_spec(),
                ),
    {
        let mut out: Vec<String> = Vec::new();
        let h = self.lines.len();
        let mut i: usize = 0;
        while i < h
            invariant
                i <= h,
                h == self.lines@.len(),
                self.wf(),
                out@.len() == i,
                forall|k: int|
                    0 <= k < i ==> (#[trigger] out@[k])@ == rendered_row(
                        self.rows()[k],
                        self.color_buf(),
                        self.colored_spec(),
                    ),
            decreases h - i,
        {
            let row_len = self.lines[i].len();
            proof {
                assert(row_len == self.rows()[i as int].len());
            }
            let mut buf: Vec<char> = Vec::new();
            if self.colored {
                let mut j: usize = 0;
                while j < row_len
                    invariant
                        j <= row_len,
                        i < h,
                        h == self.lines@.len(),
                        self.wf(),
                        self.colored_spec(),
                        row_len == self.rows()[i as int].len(),
                        row_len == self.color_buf().len(),
                        buf@ == painted_row(
                            self.rows()[i as int].take(j as int),
                            self.color_buf().take(j as int),
                        ),
                    decreases row_len - j,
                {
                    let ch = self.lines[i][j];
                    if ch == ' ' {
                        buf.push(' ');
                    } else {
                        let c = self.colors[j];
                        push_styled(&mut buf, c, ch);
                    }
                    proof {
                        let row = self.rows()[i as int];
                        let cols = self.color_buf();
                        assert(row.take(j + 1).drop_last() =~= row.take(j as int));
                        assert(cols.take(j + 1).drop_last() =~= cols.take(j as int));
                        assert(buf@ =~= painted_row(row.take(j + 1), cols.take(j + 1)));
                    }
                    j += 1;
                }
                proof {
                    assert(self.rows()[i as int].take(row_len as int) =~= self.rows()[i as int]);
                    assert(self.color_buf().take(row_len as int) =~= self.color_buf());
                }
            } else {
                let mut j: usize = 0;
                while j < row_len
                    invariant
                        j <= row_len,
                        i < h,
                        h == self.lines@.len(),
                        self.wf(),
                        row_len == self.rows()[i as int].len(),
                        buf@ == self.rows()[i as int].take(j as int),
                    decreases row_len - j,
                {
                    let ch = self.lines[i][j];
                    buf.push(ch);
                    proof {
                        assert(buf@ =~= self.rows()[i as int].take(j + 1));
                    }
                    j += 1;
                }
                proof {
                    assert(self.rows()[i as int].take(row_len as int) =~= self.rows()[i as int]);
                }
            }
            let s = chars_to_string(&buf);
            out.push(s);
            i += 1;
        }
        out
    }

    /// One frame's reconciliation: pulls slices until the window reaches
    /// the requested width, always at least one so the animation advances;
    /// evicts oldest columns until the width falls below the request,
    /// always at least one; then serializes. The window is left exactly one
    /// column short of `limit`.
    pub fn update(&mut self, limit: usize) -> (out: Vec<String>)
        requires
            old(self).wf(),
            limit > 0,
            old(self).width() < usize::MAX,
        ensures
            final(self).wf(),
            final(self).height() == old(self).height(),
            final(self).colored_spec() == old(self).colored_spec(),
            final(self).width() == limit - 1,
            forall|i: int|
                0 <= i < final(self).height() ==> #[trigger] final(self).rows()[i] == (old(
                    self,
                ).rows()[i] + appended_cells(
                    old(self).pattern(),
                    i,
                    grow_steps(old(self).width(), limit as int) as nat,
                )).skip(evict_steps(old(self).width(), limit as int)),
            final(self).pattern().verts() == old(self).pattern().verts(),
            final(self).pattern().interval_spec() == old(self).pattern().interval_spec(),
            final(self).pattern().idx_spec() == (old(self).pattern().idx_spec() + grow_steps(
                old(self).width(),
                limit as int,
            )) % old(self).pattern().period(),
            old(self).colored_spec() ==> final(self).color_buf() == (old(self).color_buf()
                + emitted_seq(
                old(self).sweep().0,
                old(self).sweep().1,
                (8 * grow_steps(old(self).width(), limit as int)) as nat,
            )).skip(
                7 * grow_steps(old(self).width(), limit as int) + evict_steps(
                    old(self).width(),
                    limit as int,
                ),
            ),
            old(self).colored_spec() ==> final(self).sweep() == iter_state(
                old(self).sweep().0,
                old(self).sweep().1,
                (8 * grow_steps(old(self).width(), limit as int)) as nat,
            ),
            !old(self).colored_spec() ==> final(self).color_buf() == old(self).color_buf()
                && final(self).sweep() == old(self).sweep(),
            out@.len() == final(self).height(),
            forall|i: int|
                0 <= i < final(self).height() ==> (#[trigger] out@[i])@ == rendered_row(
                    final(self).rows()[i],
                    final(self).color_buf(),
                    final(self).colored_spec(),
                ),
    {
        let ghost w0 = old(self).width();
        let ghost rows0 = old(self).rows();
        let ghost p0 = old(self).pattern();
        let ghost c0 = old(self).color_buf();
        let ghost s0 = old(self).sweep();
        let ghost colored0 = old(self).colored_spec();
        let ghost h0 = old(self).height();
        proof {
            lemma_small_mod(p0.idx_spec() as nat, p0.period() as nat);
        }
        let mut w = self.add_vertical_line();
        let ghost mut t: nat = 1;
        proof {
            assert(iter_state(s0.0, s0.1, 0) == (s0.0, s0.1));
            assert forall|i: int| 0 <= i < h0 implies #[trigger] old(self).rows()[i] == rows0[i]
                + appended_cells(p0, i, 0) by {
                assert(rows0[i] + appended_cells(p0, i, 0) =~= rows0[i]);
            };
            if colored0 {
                assert((c0 + emitted_seq(s0.0, s0.1, 0)).skip(0) =~= c0);
            }
            lemma_grow_invariant_step(*old(self), p0, s0, c0, rows0, *self, 0);
        }
        while w < limit
            invariant
                self.wf(),
                w == self.width(),
                1 <= t,
                t == 1 || w0 + t - 1 < limit,
                self.width() == w0 + t,
                limit <= usize::MAX,
                limit > 0,
                w0 >= 0,
                p0.wf(),
                crate::color::wf_state(s0.0, s0.1),
                rows0.len() == h0,
                forall|i: int| 0 <= i < h0 ==> (#[trigger] rows0[i]).len() == w0,
                c0.len() == if colored0 {
                    w0
                } else {
                    0int
                },
                self.height() == h0,
                self.colored_spec() == colored0,
                forall|i: int|
                    0 <= i < h0 ==> #[trigger] self.rows()[i] == rows0[i] + appended_cells(
                        p0,
                        i,
                        t,
                    ),
                self.pattern().verts() == p0.verts(),
                self.pattern().interval_spec() == p0.interval_spec(),
                self.pattern().idx_spec() == (p0.idx_spec() + t) % p0.period(),
                colored0 ==> self.color_buf() == (c0 + emitted_seq(s0.0, s0.1, (8 * t) as nat)).skip(
                    7 * t as int,
                ),
                colored0 ==> self.sweep() == iter_state(s0.0, s0.1, (8 * t) as nat),
                !colored0 ==> self.color_buf() == c0 && self.sweep() == s0,
            decreases limit - w,
        {
            let ghost pre = *self;
            w = self.add_vertical_line();
            proof {
                lemma_grow_invariant_step(pre, p0, s0, c0, rows0, *self, t);
                t = t + 1;
            }
        }
        let ghost g = t;
        proof {
            assert(g == grow_steps(w0, limit as int));
        }
        let r0 = self.remove_first_vertical_line();
        proof {
            assert(r0.is_ok());
        }
        let mut w2: usize = match r0 {
            Ok(x) => x,
            Err(_) => 0,
        };
        let ghost mut u: nat = 1;
        proof {
            assert(forall|i: int|
                0 <= i < h0 ==> #[trigger] self.rows()[i] == (rows0[i] + appended_cells(p0, i, g)).skip(
                    1,
                ));
            if colored0 {
                assert(self.color_buf() =~= (c0 + emitted_seq(s0.0, s0.1, (8 * g) as nat)).skip(
                    (7 * g + 1) as int,
                ));
            }
        }
        while w2 >= limit
            invariant
                self.wf(),
                w2 == self.width(),
                1 <= u,
                self.width() == w0 + g - u,
                self.width() >= limit - 1,
                limit > 0,
                w0 >= 0,
                g >= 1,
                p0.wf(),
                rows0.len() == h0,
                forall|i: int| 0 <= i < h0 ==> (#[trigger] rows0[i]).len() == w0,
                c0.len() == if colored0 {
                    w0
                } else {
                    0int
                },
                g == grow_steps(w0, limit as int),
                self.height() == h0,
                self.colored_spec() == colored0,
                forall|i: int|
                    0 <= i < h0 ==> #[trigger] self.rows()[i] == (rows0[i] + appended_cells(
                        p0,
                        i,
                        g,
                    )).skip(u as int),
                self.pattern().verts() == p0.verts(),
                self.pattern().interval_spec() == p0.interval_spec(),
                self.pattern().idx_spec() == (p0.idx_spec() + g) % p0.period(),
                colored0 ==> self.color_buf() == (c0 + emitted_seq(s0.0, s0.1, (8 * g) as nat)).skip(
                    (7 * g + u) as int,
                ),
                colored0 ==> self.sweep() == iter_state(s0.0, s0.1, (8 * g) as nat),
                !colored0 ==> self.color_buf() == c0 && self.sweep() == s0,
            decreases w2,
        {
            let ghost pre = *self;
            let r1 = self.remove_first_vertical_line();
            proof {
                assert(r1.is_ok());
            }
            w2 = match r1 {
                Ok(x) => x,
                Err(_) => 0,
            };
            proof {
                assert(u + 1 <= w0 + g);
                assert forall|i: int| 0 <= i < h0 implies #[trigger] self.rows()[i] == (rows0[i]
                    + appended_cells(p0, i, g)).skip((u + 1) as int) by {
                    let whole = rows0[i] + appended_cells(p0, i, g);
                    assert(whole.len() == w0 + g);
                    assert(pre.rows()[i] == whole.skip(u as int));
                    assert(self.rows()[i] == pre.rows()[i].skip(1));
                    assert(whole.skip(u as int).skip(1) =~= whole.skip((u + 1) as int));
                };
                if colored0 {
                    let cwhole = c0 + emitted_seq(s0.0, s0.1, (8 * g) as nat);
                    assert(cwhole.len() == w0 + 8 * g);
                    assert(7 * g + u + 1 <= cwhole.len());
                    assert(pre.color_buf() == cwhole.skip((7 * g + u) as int));
                    assert(self.color_buf() == pre.color_buf().skip(1));
                    assert(cwhole.skip((7 * g + u) as int).skip(1) =~= cwhole.skip(
                        (7 * g + u + 1) as int,
                    ));
                }
                u = u + 1;
            }
        }
        proof {
            assert(self.width() == limit - 1);
            assert(u == evict_steps(w0, limit as int));
        }
        self.to_strings()
    }
}

/// Law: the window's rows always have mutually equal lengths, and with
/// coloring on the color buffer's length equals the row length.
pub proof fn lemma_window_aligned(l: Lines)
    requires
        l.wf(),
    ensures
        forall|i: int, j: int|
            0 <= i < l.height() && 0 <= j < l.height() ==> (#[trigger] l.rows()[i]).len() == (
            #[trigger] l.rows()[j]).len(),
        l.colored_spec() ==> l.color_buf().len() == l.rows()[0].len(),
{
}

/// Law: every call of `update` pulls at least one slice and evicts at
/// least one column, so a call whose requested width equals the current
/// width still advances the animation, and the window always ends exactly
/// one column short of the request.
pub proof fn lemma_update_advances(w0: int, limit: int)
    requires
        limit > 0,
        w0 >= 0,
    ensures
        grow_steps(w0, limit) >= 1,
        evict_steps(w0, limit) >= 1,
        w0 + grow_steps(w0, limit) - evict_steps(w0, limit) == limit - 1,
{
}

/// Law: with coloring off, a window fed from a glyph block that holds no
/// escape character serializes to rows without any escape character.
pub proof fn lemma_uncolored_no_escape(l: Lines, i: int)
    requires
        l.wf(),
        !l.colored_spec(),
        0 <= i < l.height(),
        forall|k: int, r: int|
            0 <= k < l.pattern().verts().len() && 0 <= r < l.pattern().height_spec()
                ==> #[trigger] l.pattern().verts()[k][r] != '\u{1b}',
    ensures
        forall|j: int|
            0 <= j < l.width() ==> #[trigger] rendered_row(
                l.rows()[i],
                l.color_buf(),
                l.colored_spec(),
            )[j] != '\u{1b}',
{
    assert forall|j: int| 0 <= j < l.width() implies #[trigger] rendered_row(
        l.rows()[i],
        l.color_buf(),
        l.colored_spec(),
    )[j] != '\u{1b}' by {
        assert(cell_ok(l.pattern(), i, l.rows()[i][j]));
        if l.rows()[i][j] != ' ' {
            let k = choose|k: int|
                0 <= k < l.pattern().verts().len() && l.pattern().verts()[k][i] == l.rows()[i][j];
            assert(l.pattern().verts()[k][i] != '\u{1b}');
        }
    };
}

/// One grow step, factored out: from a well-formed window `pre` whose
/// buffers stand `t` slices beyond the frame's starting state, one call of
/// `add_vertical_line` moves them to `t + 1` slices beyond it.
proof fn lemma_grow_invariant_step(
    pre: Lines,
    p0: AfkAA,
    s0: (Seq<u8>, int),
    c0: Seq<Rgb>,
    rows0: Seq<Seq<char>>,
    post: Lines,
    t: nat,
)
    requires
        pre.wf(),
        post.wf(),
        p0.wf(),
        rows0.len() == pre.height(),
        pre.pattern().verts() == p0.verts(),
        pre.pattern().interval_spec() == p0.interval_spec(),
        pre.pattern().idx_spec() == (p0.idx_spec() + t) % p0.period(),
        forall|i: int|
            0 <= i < pre.height() ==> #[trigger] pre.rows()[i] == rows0[i] + appended_cells(
                p0,
                i,
                t,
            ),
        pre.colored_spec() ==> pre.color_buf() == (c0 + emitted_seq(s0.0, s0.1, (8 * t) as nat)).skip(
            7 * t as int,
        ),
        pre.colored_spec() ==> pre.sweep() == iter_state(s0.0, s0.1, (8 * t) as nat),
        !pre.colored_spec() ==> pre.color_buf() == c0 && pre.sweep() == s0,
        crate::color::wf_state(s0.0, s0.1),
        c0.len() == if pre.colored_spec() {
            rows0[0].len() as int
        } else {
            0
        },
        // what add_vertical_line ensures, restated over pre and post
        post.height() == pre.height(),
        post.colored_spec() == pre.colored_spec(),
        forall|i: int|
            0 <= i < post.height() ==> #[trigger] post.rows()[i] == pre.rows()[i].push(
                pre.pattern().current_slice()[i],
            ),
        post.pattern().verts() == pre.pattern().verts(),
        post.pattern().interval_spec() == pre.pattern().interval_spec(),
        post.pattern().idx_spec() == (pre.pattern().idx_spec() + 1) % pre.pattern().period(),
        pre.colored_spec() ==> post.color_buf() == (pre.color_buf() + emitted_seq(
            pre.sweep().0,
            pre.sweep().1,
            8,
        )).skip(7),
        pre.colored_spec() ==> post.sweep() == iter_state(pre.sweep().0, pre.sweep().1, 8),
        !pre.colored_spec() ==> post.color_buf() == pre.color_buf() && post.sweep() == pre.sweep(),
    ensures
        forall|i: int|
            0 <= i < post.height() ==> #[trigger] post.rows()[i] == rows0[i] + appended_cells(
                p0,
                i,
                (t + 1) as nat,
            ),
        post.pattern().verts() == p0.verts(),
        post.pattern().interval_spec() == p0.interval_spec(),
        post.pattern().idx_spec() == (p0.idx_spec() + t + 1) % p0.period(),
        post.colored_spec() ==> post.color_buf() == (c0 + emitted_seq(
            s0.0,
            s0.1,
            (8 * (t + 1)) as nat,
        )).skip((7 * (t + 1)) as int),
        post.colored_spec() ==> post.sweep() == iter_state(s0.0, s0.1, (8 * (t + 1)) as nat),
        !post.colored_spec() ==> post.color_buf() == c0 && post.sweep() == s0,
{
    let p = p0.period();
    lemma_add_mod_noop_right(1, p0.idx_spec() + t, p);
    assert(post.pattern().idx_spec() == (p0.idx_spec() + t + 1) % p);
    // the slice pulled is the one the frame's starting pattern promises at t
    assert(pre.pattern().current_slice() == p0.emitted_at(t));
    assert forall|i: int| 0 <= i < post.height() implies #[trigger] post.rows()[i] == rows0[i]
        + appended_cells(p0, i, (t + 1) as nat) by {
        assert(post.rows()[i] == (rows0[i] + appended_cells(p0, i, t)).push(p0.emitted_at(t)[i]));
        assert((rows0[i] + appended_cells(p0, i, t)).push(p0.emitted_at(t)[i]) =~= rows0[i]
            + appended_cells(p0, i, (t + 1) as nat));
    };
    if pre.colored_spec() {
        let e_t = emitted_seq(s0.0, s0.1, (8 * t) as nat);
        let e_t1 = emitted_seq(s0.0, s0.1, (8 * (t + 1)) as nat);
        let batch = emitted_seq(pre.sweep().0, pre.sweep().1, 8);
        assert forall|k: int| 0 <= k < 8 implies batch[k] == e_t1[8 * t + k] by {
            crate::color::lemma_iter_compose(s0.0, s0.1, (8 * t) as nat, (k + 1) as nat);
        };
        assert(e_t + batch =~= e_t1);
        assert(7 * t as int <= (c0 + e_t).len());
        assert((c0 + e_t).skip(7 * t as int) + batch =~= (c0 + e_t + batch).skip(7 * t as int));
        assert(post.color_buf() =~= ((c0 + e_t + batch).skip(7 * t as int)).skip(7));
        assert(((c0 + e_t + batch).skip(7 * t as int)).skip(7) =~= (c0 + e_t + batch).skip(
            (7 * t + 7) as int,
        ));
        assert(c0 + e_t + batch =~= c0 + e_t1);
        crate::color::lemma_iter_compose(s0.0, s0.1, (8 * t) as nat, 8);
        assert(post.sweep() == iter_state(s0.0, s0.1, (8 * (t + 1)) as nat));
    }
}

} // verus!
