//! The closing banner, rendered once without scrolling: the same column
//! and color machinery paints a second glyph block, starting the hue sweep
//! at a randomly drawn offset so the banner's colors differ between runs.
use vstd::prelude::*;
use rand::Rng;

use crate::ansi::{chars_to_string, push_styled, styled_cell};
use crate::color::{CYCLE_CALLS, COLOR_MAX, COLOR_MIN, Colorizer, Rgb, emitted_seq, iter_state};
use crate::pattern::{rows_of, str_chars};

verus! {

/// The built-in "back" glyph block, row by row.
pub open spec fn bak_block() -> Seq<Seq<char>> {
    seq![
        " _________                       __    ___ "@,
        "|   ____  \\          /\\         |  |  /  / "@,
        "|  |    \\  |        /  \\        |  | /  /  "@,
        "|  |____/  |       /    \\       |  |/  /   "@,
        "|         /       /  /\\  \\      |  '  /    "@,
        "|   ____  \\      /  /__\\  \\     |  .  \\    "@,
        "|  |    \\  |    /  ______  \\    |  |\\  \\   "@,
        "|  |____/  |   /  /      \\  \\   |  | \\  \\  "@,
        "|_________/   /__/        \\__\\  |__|  \\__\\ "@,
    ]
}

/// Builds the "back" glyph block.
pub fn bak_rows() -> (rows: Vec<Vec<char>>)
    ensures
        rows_of(rows@) == bak_block(),
        rows@.len() == 9,
{
    let mut rows: Vec<Vec<char>> = Vec::new();
    rows.push(str_chars(" _________                       __    ___ "));
    rows.push(str_chars("|   ____  \\          /\\         |  |  /  / "));
    rows.push(str_chars("|  |    \\  |        /  \\        |  | /  /  "));
    rows.push(str_chars("|  |____/  |       /    \\       |  |/  /   "));
    rows.push(str_chars("|         /       /  /\\  \\      |  '  /    "));
    rows.push(str_chars("|   ____  \\      /  /__\\  \\     |  .  \\    "));
    rows.push(str_chars("|  |    \\  |    /  ______  \\    |  |\\  \\   "));
    rows.push(str_chars("|  |____/  |   /  /      \\  \\   |  | \\  \\  "));
    rows.push(str_chars("|_________/   /__/        \\__\\  |__|  \\__\\ "));
    proof {
        assert(rows_of(rows@) =~= bak_block());
    }
    rows
}

/// Facts about the built-in "back" block: nine rows, each 43 cells wide.
proof fn lemma_bak_block_shape()
    ensures
        bak_block().len() == 9,
        forall|j: int| 0 <= j < 9 ==> #[trigger] bak_block()[j].len() == 43,
{
    reveal_strlit(" _________                       __    ___ ");
    reveal_strlit("|   ____  \\          /\\         |  |  /  / ");
    reveal_strlit("|  |    \\  |        /  \\        |  | /  /  ");
    reveal_strlit("|  |____/  |       /    \\       |  |/  /   ");
    reveal_strlit("|         /       /  /\\  \\      |  '  /    ");
    reveal_strlit("|   ____  \\      /  /__\\  \\     |  .  \\    ");
    reveal_strlit("|  |    \\  |    /  ______  \\    |  |\\  \\   ");
    reveal_strlit("|  |____/  |   /  /      \\  \\   |  | \\  \\  ");
    reveal_strlit("|_________/   /__/        \\__\\  |__|  \\__\\ ");
    let b = bak_block();
    assert(b[0].len() == 43);
    assert(b[1].len() == 43);
    assert(b[2].len() == 43);
    assert(b[3].len() == 43);
    assert(b[4].len() == 43);
    assert(b[5].len() == 43);
    assert(b[6].len() == 43);
    assert(b[7].len() == 43);
    assert(b[8].len() == 43);
}

/// One banner row painted with one color per column; unlike the scroll
/// window, every cell is painted, blanks included.
pub open spec fn banner_row(row: Seq<char>, colors: Seq<Rgb>) -> Seq<char>
    decreases row.len(),
{
    if row.len() == 0 {
        Seq::empty()
    } else {
        banner_row(row.drop_last(), colors.drop_last()) + styled_cell(colors.last(), row.last())
    }
}

/// The colors the banner's columns get after skipping `n` samples: one
/// fresh sample per column of the first row.
pub open spec fn banner_colors(n: nat, want: nat) -> Seq<Rgb> {
    let st = iter_state(seq![COLOR_MIN, COLOR_MAX, COLOR_MAX], 0, n);
    emitted_seq(st.0, st.1, want)
}

/// Whether `out` is the colored banner as painted with the sweep started
/// `n` samples into its cycle.
pub open spec fn is_banner_rendering(out: Seq<String>, n: nat) -> bool {
    forall|i: int|
        0 <= i < out.len() ==> (#[trigger] out[i])@ == banner_row(
            bak_block()[i],
            banner_colors(n, bak_block()[0].len()),
        )
}

/// Relies on rand's `thread_rng` with `Rng::gen_range`: the drawn value
/// lies below the bound.
#[verifier::external_body]
fn random_below(bound: u8) -> (r: u8)
    requires
        bound > 0,
    ensures
        r < bound,
{
    rand::thread_rng().gen_range(0..bound)
}

/// Renders the closing banner with the hue sweep started `skip` samples
/// into its cycle.
pub fn bak_lines_with_skip(colored: bool, skip: usize) -> (out: Vec<String>)
    ensures
        out@.len() == bak_block().len(),
        !colored ==> forall|i: int|
            0 <= i < out@.len() ==> (#[trigger] out@[i])@ == bak_block()[i],
        colored ==> forall|i: int|
            0 <= i < out@.len() ==> (#[trigger] out@[i])@ == banner_row(
                bak_block()[i],
                banner_colors(skip as nat, bak_block()[0].len()),
            ),
{
    proof {
        lemma_bak_block_shape();
    }
    let rows = bak_rows();
    let mut colorizer = Colorizer::new();
    colorizer.skip(skip);
    let ghost st = (colorizer.channels(), colorizer.active());
    let want = rows[0].len();
    let mut colors: Vec<Rgb> = Vec::new();
    let mut k: usize = 0;
    while k < want
        invariant
            k <= want,
            colorizer.wf(),
            (colorizer.channels(), colorizer.active()) == iter_state(st.0, st.1, k as nat),
            colors@ == emitted_seq(st.0, st.1, k as nat),
        decreases want - k,
    {
        let ghost pre = (colorizer.channels(), colorizer.active());
        let s = colorizer.next();
        colors.push(s);
        proof {
            crate::color::lemma_iter_compose(st.0, st.1, k as nat, 1);
            assert(iter_state(pre.0, pre.1, 1) == (
                crate::color::step_rgb(pre.0, pre.1),
                crate::color::step_active(pre.0, pre.1),
            ));
            assert(colors@ =~= emitted_seq(st.0, st.1, (k + 1) as nat));
        }
        k += 1;
    }
    let mut out: Vec<String> = Vec::new();
    let mut i: usize = 0;
    while i < rows.len()
        invariant
            i <= rows@.len(),
            rows_of(rows@) == bak_block(),
            rows@.len() == 9,
            forall|j: int| 0 <= j < 9 ==> #[trigger] bak_block()[j].len() == 43,
            colors@ == banner_colors(skip as nat, 43),
            colors@.len() == 43,
            out@.len() == i,
            !colored ==> forall|j: int|
                0 <= j < i ==> (#[trigger] out@[j])@ == bak_block()[j],
            colored ==> forall|j: int|
                0 <= j < i ==> (#[trigger] out@[j])@ == banner_row(bak_block()[j], colors@),
        decreases rows@.len() - i,
    {
        let row = &rows[i];
        let mut buf: Vec<char> = Vec::new();
        if colored {
            let mut j: usize = 0;
            while j < row.len()
                invariant
                    j <= row@.len(),
                    row@ == bak_block()[i as int],
                    0 <= i < 9,
                    row@.len() == 43,
                    colors@.len() == 43,
                    buf@ == banner_row(row@.take(j as int), colors@.take(j as int)),
                decreases row@.len() - j,
            {
                let c = colors[j];
                let ch = row[j];
                push_styled(&mut buf, c, ch);
                proof {
                    assert(row@.take(j + 1).drop_last() =~= row@.take(j as int));
                    assert(colors@.take(j + 1).drop_last() =~= colors@.take(j as int));
                    assert(buf@ =~= banner_row(row@.take(j + 1), colors@.take(j + 1)));
                }
                j += 1;
            }
            proof {
                assert(row@.take(43) =~= row@);
                assert(colors@.take(43) =~= colors@);
            }
        } else {
            let mut j: usize = 0;
            while j < row.len()
                invariant
                    j <= row@.len(),
                    row@ == bak_block()[i as int],
                    buf@ == row@.take(j as int),
                decreases row@.len() - j,
            {
                let ch = row[j];
                buf.push(ch);
                proof {
                    assert(buf@ =~= row@.take(j + 1));
                }
                j += 1;
            }
            proof {
                assert(row@.take(row@.len() as int) =~= row@);
            }
        }
        let s = chars_to_string(&buf);
        out.push(s);
        i += 1;
    }
    out
}

/// Renders the closing banner, drawing the sweep offset at random from
/// one full hue cycle.
pub fn bak_lines(colored: bool) -> (out: Vec<String>)
    ensures
        out@.len() == bak_block().len(),
        !colored ==> forall|i: int|
            0 <= i < out@.len() ==> (#[trigger] out@[i])@ == bak_block()[i],
        colored ==> exists|n: nat| n < CYCLE_CALLS && #[trigger] is_banner_rendering(out@, n),
{
    let skip = random_below(CYCLE_CALLS);
    let out = bak_lines_with_skip(colored, skip as usize);
    proof {
        if colored {
            assert((skip as nat) < CYCLE_CALLS && is_banner_rendering(out@, skip as nat));
        }
    }
    out
}

} // verus!
