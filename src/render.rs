use vstd::prelude::*;
use crate::grid::Grid;

verus! {

/// The glyph for a cell pair stacked vertically: full block, upper half,
/// lower half or blank.
pub open spec fn glyph(top: bool, bottom: bool) -> char {
    if top && bottom {
        '█'
    } else if top {
        '▀'
    } else if bottom {
        '▄'
    } else {
        ' '
    }
}

/// Number of text lines for `rows` grid rows: two rows share one line.
pub open spec fn line_count(rows: nat) -> nat {
    (rows + 1) / 2
}

/// Character `i` of the rendering of `g`: lines of `cols()` glyphs separated
/// by newlines; line `k` shows rows `2k` and `2k + 1`, and an unpaired last
/// row is shown as if the row below it were dead.
pub open spec fn render_char(g: Grid, i: int) -> char {
    let stride = g.cols() as int + 1;
    let x = i % stride;
    let y = 2 * (i / stride);
    if x == g.cols() {
        '\n'
    } else if y + 1 < g.rows() {
        glyph(g.alive(x, y), g.alive(x, y + 1))
    } else {
        glyph(g.alive(x, y), false)
    }
}

/// The full text of a frame showing `g`.
pub open spec fn rendered(g: Grid) -> Seq<char> {
    Seq::new((line_count(g.rows()) * (g.cols() + 1) - 1) as nat, |i: int| render_char(g, i))
}

fn push_glyph(s: &mut String, top: bool, bottom: bool)
    ensures
        final(s)@ == old(s)@.push(glyph(top, bottom)),
{
    if top && bottom {
        proof {
            reveal_strlit("█");
        }
        s.append("█");
    } else if top {
        proof {
            reveal_strlit("▀");
        }
        s.append("▀");
    } else if bottom {
        proof {
            reveal_strlit("▄");
        }
        s.append("▄");
    } else {
        proof {
            reveal_strlit(" ");
        }
        s.append(" ");
    }
}

proof fn lemma_position(stride: int, k: int, x: int)
    requires
        0 <= x < stride,
        0 <= k,
    ensures
        (k * stride + x) / stride == k,
        (k * stride + x) % stride == x,
{
    vstd::arithmetic::div_mod::lemma_fundamental_div_mod_converse(k * stride + x, stride, k, x);
}

/// A frame has `ceil(rows / 2)` lines of `cols()` characters each: a newline
/// stands exactly at the end of every line but the last, every other
/// character is one of the four glyphs, and on the line of an unpaired last
/// row only the upper half block or a blank.
pub proof fn lemma_render_layout(g: Grid)
    requires
        g.wf(),
    ensures
        line_count(g.rows()) == g.rows() / 2 + g.rows() % 2,
        rendered(g).len() + 1 == line_count(g.rows()) * (g.cols() + 1),
        forall|i: int|
            0 <= i < rendered(g).len() ==> (#[trigger] rendered(g)[i] == '\n' <==> i % (g.cols() + 1) as int
                == g.cols()),
        forall|i: int|
            0 <= i < rendered(g).len() && rendered(g)[i] != '\n' ==> {
                let c = #[trigger] rendered(g)[i];
                c == '█' || c == '▀' || c == '▄' || c == ' '
            },
        forall|i: int|
            0 <= i < rendered(g).len() && g.rows() % 2 == 1 && i / (g.cols() + 1) as int == line_count(g.rows()) - 1
                && rendered(g)[i] != '\n' ==> {
                let c = #[trigger] rendered(g)[i];
                c == '▀' || c == ' '
            },
{
    g.lemma_wf_dims();
    assert(line_count(g.rows()) >= 1);
    assert(line_count(g.rows()) * (g.cols() + 1) >= 1) by (nonlinear_arith)
        requires
            line_count(g.rows()) >= 1,
    ;
    assert forall|i: int| 0 <= i < rendered(g).len() && g.rows() % 2 == 1 && i / (g.cols() + 1) as int
        == line_count(g.rows()) - 1 && rendered(g)[i] != '\n' implies {
        let c = #[trigger] rendered(g)[i];
        c == '▀' || c == ' '
    } by {
        assert(2 * (i / (g.cols() + 1) as int) + 1 == g.rows());
    }
}

/// Number of newline characters in `s`.
pub open spec fn newline_count(s: Seq<char>) -> nat
    decreases s.len(),
{
    if s.len() == 0 {
        0
    } else {
        newline_count(s.drop_last()) + if s.last() == '\n' { 1nat } else { 0nat }
    }
}

proof fn lemma_next_quotient(n: int, d: int)
    requires
        0 <= n,
        1 <= d,
    ensures
        (n + 1) / d == n / d + if n % d == d - 1 { 1int } else { 0 },
{
    let q = n / d;
    let r = n % d;
    vstd::arithmetic::div_mod::lemma_fundamental_div_mod(n, d);
    vstd::arithmetic::div_mod::lemma_mod_bound(n, d);
    assert(n == q * d + r) by (nonlinear_arith)
        requires
            n == d * q + r,
    ;
    if r == d - 1 {
        assert(n + 1 == (q + 1) * d + 0) by (nonlinear_arith)
            requires
                n == q * d + r,
                r == d - 1,
        ;
        vstd::arithmetic::div_mod::lemma_fundamental_div_mod_converse(n + 1, d, q + 1, 0);
    } else {
        vstd::arithmetic::div_mod::lemma_fundamental_div_mod_converse(n + 1, d, q, r + 1);
    }
}

proof fn lemma_newlines_in_prefix(g: Grid, n: int)
    requires
        g.wf(),
        0 <= n <= rendered(g).len(),
    ensures
        newline_count(rendered(g).take(n)) == n / (g.cols() + 1) as int,
    decreases n,
{
    let d = (g.cols() + 1) as int;
    if n == 0 {
        assert(rendered(g).take(0) =~= Seq::<char>::empty());
    } else {
        lemma_newlines_in_prefix(g, n - 1);
        assert(rendered(g).take(n).drop_last() =~= rendered(g).take(n - 1));
        lemma_next_quotient(n - 1, d);
    }
}

/// A frame of a grid with `rows()` rows holds exactly `ceil(rows / 2) - 1`
/// newlines, so it has `ceil(rows / 2)` lines.
pub proof fn lemma_render_line_count(g: Grid)
    requires
        g.wf(),
    ensures
        newline_count(rendered(g)) + 1 == line_count(g.rows()),
        line_count(g.rows()) == g.rows() / 2 + g.rows() % 2,
{
    lemma_render_layout(g);
    let d = (g.cols() + 1) as int;
    let lines = line_count(g.rows()) as int;
    let len = rendered(g).len() as int;
    lemma_newlines_in_prefix(g, len);
    assert(rendered(g).take(len) =~= rendered(g));
    assert(len == (lines - 1) * d + (d - 1)) by (nonlinear_arith)
        requires
            len + 1 == lines * d,
    ;
    vstd::arithmetic::div_mod::lemma_fundamental_div_mod_converse(len, d, lines - 1, d - 1);
}

/// The text of a frame showing `g`, built whole so that it can be written
/// out at once.
pub fn render(g: &Grid) -> (r: String)
    requires
        g.wf(),
    ensures
        r@ == rendered(*g),
{
    proof {
        g.lemma_wf_dims();
    }
    let width = g.width();
    let height = g.height();
    let lines = height / 2 + height % 2;
    let ghost stride = width as int + 1;
    let mut s = String::new();
    let mut k: usize = 0;
    while k < lines
        invariant
            g.wf(),
            width == g.cols(),
            height == g.rows(),
            lines == line_count(height as nat),
            stride == width + 1,
            k <= lines,
            s@.len() == if k == 0 { 0 } else { k * stride - 1 },
            forall|i: int| 0 <= i < s@.len() ==> s@[i] == #[trigger] render_char(*g, i),
        decreases lines - k,
    {
        let y = 2 * k;
        if k > 0 {
            proof {
                reveal_strlit("\n");
                lemma_position(stride, k - 1, width as int);
                assert((k - 1) * stride + width == k * stride - 1) by (nonlinear_arith)
                    requires
                        stride == width + 1,
                ;
            }
            s.append("\n");
        }
        assert(s@.len() == k * stride) by (nonlinear_arith)
            requires
                s@.len() == if k == 0 { 0 } else { k * stride - 1 } + if k > 0 { 1int } else { 0 },
        ;
        let mut x: usize = 0;
        while x < width
            invariant
                g.wf(),
                width == g.cols(),
                height == g.rows(),
                lines == line_count(height as nat),
                stride == width + 1,
                k < lines,
                y == 2 * k,
                x <= width,
                s@.len() == k * stride + x,
                forall|i: int| 0 <= i < s@.len() ==> s@[i] == #[trigger] render_char(*g, i),
            decreases width - x,
        {
            proof {
                lemma_position(stride, k as int, x as int);
            }
            if y + 1 < height {
                push_glyph(&mut s, g.get(x, y), g.get(x, y + 1));
            } else {
                push_glyph(&mut s, g.get(x, y), false);
            }
            x = x + 1;
        }
        k = k + 1;
        assert(s@.len() == k * stride - 1) by (nonlinear_arith)
            requires
                s@.len() == (k - 1) * stride + width,
                stride == width + 1,
        ;
    }
    assert(s@ =~= rendered(*g));
    s
}

} // verus!
