//! Render layout: one bar line per non-zero bucket of a scaled table.

use vstd::prelude::*;

verus! {

/// Width of the label column in front of each bar (`nnn: `).
pub const LABEL_MARGIN: u32 = 5;

/// One line of the rendered histogram: the byte value whose bucket is
/// non-zero, and the length of its bar in marker characters.
#[derive(Clone, Copy, Debug, PartialEq, Eq, Structural)]
pub struct RenderLine {
    /// The byte value this line stands for.
    pub byte: u8,
    /// How many marker characters the bar holds; always the bucket's count.
    pub bar: u32,
}

/// The lines a table renders to: one line per non-zero bucket, in ascending
/// order of byte value, each carrying the bucket's count as its bar length.
/// Zero buckets yield no line.
pub open spec fn render_lines(t: Seq<u32>) -> Seq<RenderLine>
    decreases t.len(),
{
    if t.len() == 0 {
        Seq::empty()
    } else {
        render_lines(t.drop_last()) + if t.last() > 0 {
            seq![RenderLine { byte: (t.len() - 1) as u8, bar: t.last() }]
        } else {
            Seq::empty()
        }
    }
}

/// Lays out the histogram for `counts`: one `RenderLine` per non-zero
/// bucket, in ascending byte order. Buckets with count zero produce no line.
pub fn render_counts(counts: &[u32; 256]) -> (lines: Vec<RenderLine>)
    ensures
        lines@ == render_lines(counts@),
{
    let mut lines: Vec<RenderLine> = Vec::new();
    let mut j: usize = 0;
    while j < 256
        invariant
            j <= 256,
            lines@ == render_lines(counts@.take(j as int)),
        decreases 256 - j,
    {
        let c = counts[j];
        if c > 0 {
            lines.push(RenderLine { byte: j as u8, bar: c });
        }
        proof {
            assert(counts@.take(j + 1).drop_last() =~= counts@.take(j as int));
            assert(counts@.take(j + 1).last() == counts@[j as int]);
            assert(lines@ =~= render_lines(counts@.take(j + 1)));
        }
        j = j + 1;
    }
    proof {
        assert(counts@.take(256) =~= counts@);
    }
    lines
}

/// The number of columns left for the bars once the label column is taken
/// out of the terminal width; never less than zero, however narrow the
/// terminal reports itself.
pub fn display_width(term_width: u32) -> (w: u32)
    ensures
        w as int == if term_width >= LABEL_MARGIN {
            term_width - LABEL_MARGIN
        } else {
            0
        },
{
    if term_width >= LABEL_MARGIN {
        term_width - LABEL_MARGIN
    } else {
        0
    }
}

} // verus!
