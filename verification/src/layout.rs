//! How the lines of a framebuffer are wired into one physical LED chain.
use crate::text::{chars_of, lacks, no_space};
use vstd::arithmetic::div_mod::*;
use vstd::arithmetic::mul::*;
use vstd::prelude::*;

verus! {

broadcast use vstd::string::group_string_axioms;

/// The horizontal edge that the chain enters the framebuffer from. For a
/// `Row` chain it is the direction in which each row runs, for a `Column`
/// chain it says which column is line 0.
#[derive(Clone, Copy, PartialEq, Eq, Debug, Structural)]
pub enum HEdge {
    Left,
    Right,
}

/// The vertical edge that the chain enters from: the direction in which each
/// column runs, or which row is line 0.
#[derive(Clone, Copy, PartialEq, Eq, Debug, Structural)]
pub enum VEdge {
    Top,
    Bottom,
}

/// Whether a line of the chain is a row or a column.
#[derive(Clone, Copy, PartialEq, Eq, Debug, Structural)]
pub enum Axis {
    Row,
    Column,
}

/// How a chain's lines are wired: the corner it starts at, the axis that is
/// scanned line by line, and whether successive lines alternate their
/// direction (`serpentine`) or all run the same way.
#[derive(Clone, Copy, PartialEq, Eq, Debug, Structural)]
pub struct ChainLayout {
    pub h_edge: HEdge,
    pub v_edge: VEdge,
    pub axis: Axis,
    pub serpentine: bool,
}

/// The place of `k` in a line of `n`, counted from the other end.
pub open spec fn mirrored(k: int, n: int, forward: bool) -> int {
    if forward {
        k
    } else {
        n - 1 - k
    }
}

impl ChainLayout {
    /// Whether line `line` runs in its base direction.
    pub open spec fn forward(self, line: int) -> bool {
        let base = match self.axis {
            Axis::Row => self.h_edge == HEdge::Left,
            Axis::Column => self.v_edge == VEdge::Top,
        };
        base != (self.serpentine && line % 2 == 1)
    }

    /// The line that pixel `(x, y)` is on.
    pub open spec fn line_of(self, x: int, y: int, width: int, height: int) -> int {
        match self.axis {
            Axis::Row => mirrored(y, height, self.v_edge == VEdge::Top),
            Axis::Column => mirrored(x, width, self.h_edge == HEdge::Left),
        }
    }

    /// The place of pixel `(x, y)` on its line.
    pub open spec fn place_of(self, x: int, y: int, width: int, height: int) -> int {
        let line = self.line_of(x, y, width, height);
        match self.axis {
            Axis::Row => mirrored(x, width, self.forward(line)),
            Axis::Column => mirrored(y, height, self.forward(line)),
        }
    }

    /// How many pixels a line has.
    pub open spec fn line_len(self, width: int, height: int) -> int {
        match self.axis {
            Axis::Row => width,
            Axis::Column => height,
        }
    }

    /// The place of pixel `(x, y)` in the physical chain: the lines before its
    /// own, then its place on that line.
    pub open spec fn chain_index(self, x: int, y: int, width: int, height: int) -> int {
        self.line_of(x, y, width, height) * self.line_len(width, height) + self.place_of(
            x,
            y,
            width,
            height,
        )
    }

    /// Whether line `line` runs in its base direction or the opposite one,
    /// which a serpentine chain takes on every other line.
    pub fn line_forward(&self, line: usize) -> (r: bool)
        ensures
            r == self.forward(line as int),
    {
        let base_forward: bool = match self.axis {
            Axis::Row => self.h_edge == HEdge::Left,
            Axis::Column => self.v_edge == VEdge::Top,
        };
        if self.serpentine && line % 2 == 1 {
            !base_forward
        } else {
            base_forward
        }
    }

    /// Maps pixel `(x, y)` of a `width` by `height` framebuffer to its index in
    /// the physical chain.
    pub fn led_index(&self, x: usize, y: usize, width: usize, height: usize) -> (r: usize)
        requires
            x < width,
            y < height,
            width * height <= usize::MAX,
        ensures
            r == self.chain_index(x as int, y as int, width as int, height as int),
            r < width * height,
    {
        proof {
            lemma_chain_index_range(*self, x as int, y as int, width as int, height as int);
        }
        match self.axis {
            Axis::Row => {
                let line: usize = if self.v_edge == VEdge::Top {
                    y
                } else {
                    height - 1 - y
                };
                let pos: usize = if self.line_forward(line) {
                    x
                } else {
                    width - 1 - x
                };
                proof {
                    lemma_mul_nonnegative(line as int, width as int);
                }
                line * width + pos
            },
            Axis::Column => {
                let line: usize = if self.h_edge == HEdge::Left {
                    x
                } else {
                    width - 1 - x
                };
                let pos: usize = if self.line_forward(line) {
                    y
                } else {
                    height - 1 - y
                };
                proof {
                    lemma_mul_nonnegative(line as int, height as int);
                }
                line * height + pos
            },
        }
    }
}

/// Every pixel has a place in the chain.
pub proof fn lemma_chain_index_range(l: ChainLayout, x: int, y: int, width: int, height: int)
    requires
        0 <= x < width,
        0 <= y < height,
    ensures
        0 <= l.chain_index(x, y, width, height) < width * height,
{
    let line = l.line_of(x, y, width, height);
    let n = l.line_len(width, height);
    let lines = match l.axis {
        Axis::Row => height,
        Axis::Column => width,
    };
    assert(0 <= line < lines);
    assert(lines * n == width * height) by (nonlinear_arith)
        requires
            (lines == height && n == width) || (lines == width && n == height),
    ;
    assert(0 <= line * n && line * n + n <= lines * n) by (nonlinear_arith)
        requires
            0 <= line < lines,
            n > 0,
    ;
}

/// Two pixels never share an LED.
pub proof fn lemma_chain_index_injective(
    l: ChainLayout,
    x1: int,
    y1: int,
    x2: int,
    y2: int,
    width: int,
    height: int,
)
    requires
        0 <= x1 < width,
        0 <= y1 < height,
        0 <= x2 < width,
        0 <= y2 < height,
        l.chain_index(x1, y1, width, height) == l.chain_index(x2, y2, width, height),
    ensures
        x1 == x2,
        y1 == y2,
{
    let n = l.line_len(width, height);
    let a = l.line_of(x1, y1, width, height);
    let b = l.line_of(x2, y2, width, height);
    let p = l.place_of(x1, y1, width, height);
    let q = l.place_of(x2, y2, width, height);
    lemma_fundamental_div_mod_converse(a * n + p, n, a, p);
    lemma_fundamental_div_mod_converse(b * n + q, n, b, q);
}

/// The pixel that the LED at `index` shows.
pub open spec fn pixel_of(l: ChainLayout, index: int, width: int, height: int) -> (int, int) {
    let n = l.line_len(width, height);
    let line = index / n;
    let place = mirrored(index % n, n, l.forward(line));
    match l.axis {
        Axis::Row => (place, mirrored(line, height, l.v_edge == VEdge::Top)),
        Axis::Column => (mirrored(line, width, l.h_edge == HEdge::Left), place),
    }
}

/// Every LED of the chain shows a pixel.
pub proof fn lemma_chain_index_onto(l: ChainLayout, index: int, width: int, height: int)
    requires
        width > 0,
        height > 0,
        0 <= index < width * height,
    ensures
        ({
            let (x, y) = pixel_of(l, index, width, height);
            &&& 0 <= x < width
            &&& 0 <= y < height
            &&& l.chain_index(x, y, width, height) == index
        }),
{
    let n = l.line_len(width, height);
    let lines = match l.axis {
        Axis::Row => height,
        Axis::Column => width,
    };
    assert(lines * n == width * height) by (nonlinear_arith)
        requires
            (lines == height && n == width) || (lines == width && n == height),
    ;
    lemma_fundamental_div_mod(index, n);
    lemma_mod_bound(index, n);
    lemma_div_pos_is_pos(index, n);
    assert(index / n < lines) by {
        lemma_multiply_divide_lt(index, n, lines);
    }
    lemma_mul_is_commutative(n, index / n);
}

/// The LED of a pixel shows that pixel.
pub proof fn lemma_pixel_of_chain_index(l: ChainLayout, x: int, y: int, width: int, height: int)
    requires
        0 <= x < width,
        0 <= y < height,
    ensures
        pixel_of(l, l.chain_index(x, y, width, height), width, height) == (x, y),
{
    let n = l.line_len(width, height);
    let line = l.line_of(x, y, width, height);
    let place = l.place_of(x, y, width, height);
    lemma_fundamental_div_mod_converse(line * n + place, n, line, place);
}

/// Consecutive LEDs of a serpentine chain sit on neighbouring pixels: no wire
/// leads from the end of one line back to the start of the next.
pub proof fn lemma_serpentine_neighbours(l: ChainLayout, index: int, width: int, height: int)
    requires
        l.serpentine,
        width > 0,
        height > 0,
        0 <= index,
        index + 1 < width * height,
    ensures
        ({
            let (x1, y1) = pixel_of(l, index, width, height);
            let (x2, y2) = pixel_of(l, index + 1, width, height);
            ||| x1 == x2 && (y1 == y2 + 1 || y2 == y1 + 1)
            ||| y1 == y2 && (x1 == x2 + 1 || x2 == x1 + 1)
        }),
{
    let n = l.line_len(width, height);
    let line = index / n;
    let place = index % n;
    lemma_fundamental_div_mod(index, n);
    lemma_mod_bound(index, n);
    if place + 1 < n {
        assert(index + 1 == line * n + (place + 1)) by (nonlinear_arith)
            requires
                index == n * line + place,
        ;
        lemma_fundamental_div_mod_converse(index + 1, n, line, place + 1);
    } else {
        assert(index + 1 == (line + 1) * n + 0) by (nonlinear_arith)
            requires
                index == n * line + place,
                place + 1 == n,
        ;
        lemma_fundamental_div_mod_converse(index + 1, n, line + 1, 0);
        assert(l.forward(line) != l.forward(line + 1));
    }
}

// ---------------------------------------------------------------------------
// Text
// ---------------------------------------------------------------------------

/// The parts of a layout that a character can set: the horizontal edge, the
/// vertical edge, the axis, the wiring.
pub open spec fn layout_part(c: char) -> Option<int> {
    if c == 'r' || c == 'l' {
        Some(0)
    } else if c == 't' || c == 'b' {
        Some(1)
    } else if c == 'x' || c == 'y' {
        Some(2)
    } else if c == 'i' {
        Some(3)
    } else {
        None
    }
}

/// Whether every character of `s` sets a part, and no part is set twice.
pub open spec fn layout_ok(s: Seq<char>) -> bool {
    &&& forall|i: int| 0 <= i < s.len() ==> layout_part(#[trigger] s[i]) is Some
    &&& forall|i: int, j: int|
        #![trigger s[i], s[j]]
        0 <= i < j < s.len() ==> layout_part(s[i]) != layout_part(s[j])
}

/// The layout that `s` names: what a character sets, and the default for each
/// part that none sets.
pub open spec fn layout_of(s: Seq<char>) -> Option<ChainLayout> {
    if layout_ok(s) {
        Some(
            ChainLayout {
                h_edge: if s.contains('r') {
                    HEdge::Right
                } else {
                    HEdge::Left
                },
                v_edge: if s.contains('b') {
                    VEdge::Bottom
                } else {
                    VEdge::Top
                },
                axis: if s.contains('y') {
                    Axis::Column
                } else {
                    Axis::Row
                },
                serpentine: s.contains('i'),
            },
        )
    } else {
        None
    }
}

/// The text of a layout: every part spelled out.
pub open spec fn layout_text(l: ChainLayout) -> Seq<char> {
    let base = seq![
        if l.h_edge == HEdge::Right {
            'r'
        } else {
            'l'
        },
        if l.v_edge == VEdge::Top {
            't'
        } else {
            'b'
        },
        if l.axis == Axis::Row {
            'x'
        } else {
            'y'
        },
    ];
    if l.serpentine {
        base.push('i')
    } else {
        base
    }
}

/// Reads a layout: up to four characters in any order, at most one of `r`/`l`
/// (the horizontal edge), one of `t`/`b` (the vertical edge), one of `x`/`y`
/// (the axis) and one `i` (serpentine wiring). What is left out is `l`, `t`,
/// `x` and not serpentine. `None` on any other character, or on a second one
/// for the same part.
pub fn parse_layout(s: &str) -> (r: Option<ChainLayout>)
    ensures
        r == layout_of(s@),
{
    let v: Vec<char> = chars_of(s);
    let mut h_edge: Option<HEdge> = None;
    let mut v_edge: Option<VEdge> = None;
    let mut axis: Option<Axis> = None;
    let mut serpentine: bool = false;
    for k in 0..v.len()
        invariant
            v@ == s@,
            layout_ok(s@.take(k as int)),
            h_edge is Some <==> exists|j: int| 0 <= j < k && layout_part(#[trigger] s@[j]) == Some(0int),
            v_edge is Some <==> exists|j: int| 0 <= j < k && layout_part(#[trigger] s@[j]) == Some(1int),
            axis is Some <==> exists|j: int| 0 <= j < k && layout_part(#[trigger] s@[j]) == Some(2int),
            serpentine <==> exists|j: int| 0 <= j < k && layout_part(#[trigger] s@[j]) == Some(3int),
            h_edge == Some(HEdge::Right) <==> exists|j: int| 0 <= j < k && #[trigger] s@[j] == 'r',
            v_edge == Some(VEdge::Bottom) <==> exists|j: int| 0 <= j < k && #[trigger] s@[j] == 'b',
            axis == Some(Axis::Column) <==> exists|j: int| 0 <= j < k && #[trigger] s@[j] == 'y',
            serpentine <==> exists|j: int| 0 <= j < k && #[trigger] s@[j] == 'i',
    {
        let c: char = v[k];
        let ghost old_ok = layout_ok(s@.take(k as int));
        proof {
            if layout_ok(s@) {
                assert(forall|j: int| 0 <= j < k ==> layout_part(#[trigger] s@[j]) != layout_part(s@[k as int]));
            }
        }
        if c == 'r' && h_edge.is_none() {
            h_edge = Some(HEdge::Right);
        } else if c == 'l' && h_edge.is_none() {
            h_edge = Some(HEdge::Left);
        } else if c == 't' && v_edge.is_none() {
            v_edge = Some(VEdge::Top);
        } else if c == 'b' && v_edge.is_none() {
            v_edge = Some(VEdge::Bottom);
        } else if c == 'x' && axis.is_none() {
            axis = Some(Axis::Row);
        } else if c == 'y' && axis.is_none() {
            axis = Some(Axis::Column);
        } else if c == 'i' && !serpentine {
            serpentine = true;
        } else {
            return None;
        }
        proof {
            let t = s@.take(k + 1);
            assert forall|i: int, j: int|
                #![trigger t[i], t[j]]
                0 <= i < j < t.len() implies layout_part(t[i]) != layout_part(t[j]) by {
                if j < k {
                    assert(s@.take(k as int)[i] == t[i]);
                    assert(s@.take(k as int)[j] == t[j]);
                }
            }
            assert forall|i: int| 0 <= i < t.len() implies layout_part(#[trigger] t[i]) is Some by {
                if i < k {
                    assert(s@.take(k as int)[i] == t[i]);
                }
            }
        }
    }
    proof {
        assert(s@.take(s@.len() as int) =~= s@);
    }
    Some(
        ChainLayout {
            h_edge: match h_edge {
                Some(e) => e,
                None => HEdge::Left,
            },
            v_edge: match v_edge {
                Some(e) => e,
                None => VEdge::Top,
            },
            axis: match axis {
                Some(a) => a,
                None => Axis::Row,
            },
            serpentine,
        },
    )
}

/// The inverse of `parse_layout`: always all parts, so that a layout has one
/// text only.
pub fn layout_to_csv(layout: &ChainLayout) -> (r: String)
    ensures
        r@ == layout_text(*layout),
{
    let mut s: String = String::new();
    proof {
        reveal_strlit("r");
        reveal_strlit("l");
        reveal_strlit("t");
        reveal_strlit("b");
        reveal_strlit("x");
        reveal_strlit("y");
        reveal_strlit("i");
    }
    s.append(
        match layout.h_edge {
            HEdge::Right => "r",
            HEdge::Left => "l",
        },
    );
    s.append(
        match layout.v_edge {
            VEdge::Top => "t",
            VEdge::Bottom => "b",
        },
    );
    s.append(
        match layout.axis {
            Axis::Row => "x",
            Axis::Column => "y",
        },
    );
    if layout.serpentine {
        s.append("i");
    }
    proof {
        assert(s@ =~= layout_text(*layout));
    }
    s
}

/// A layout reads back from its text.
pub proof fn lemma_layout_roundtrip(l: ChainLayout)
    ensures
        layout_of(layout_text(l)) == Some(l),
{
    let s = layout_text(l);
    assert(s[0] == 'r' || s[0] == 'l');
    assert(s[1] == 't' || s[1] == 'b');
    assert(s[2] == 'x' || s[2] == 'y');
    if l.serpentine {
        assert(s[3] == 'i');
    }
}

/// The order of the characters does not matter.
pub proof fn lemma_layout_order(s: Seq<char>, t: Seq<char>)
    requires
        s.to_multiset() == t.to_multiset(),
    ensures
        layout_of(s) == layout_of(t),
{
    assert forall|c: char| s.contains(c) == t.contains(c) by {
        vstd::seq_lib::to_multiset_contains(s, c);
        vstd::seq_lib::to_multiset_contains(t, c);
    }
    if layout_ok(s) {
        lemma_layout_ok_order(s, t);
    }
    if layout_ok(t) {
        lemma_layout_ok_order(t, s);
    }
}

proof fn lemma_layout_ok_order(s: Seq<char>, t: Seq<char>)
    requires
        s.to_multiset() == t.to_multiset(),
        layout_ok(s),
    ensures
        layout_ok(t),
{
    assert forall|c: char| t.contains(c) implies s.contains(c) by {
        vstd::seq_lib::to_multiset_contains(s, c);
        vstd::seq_lib::to_multiset_contains(t, c);
    }
    assert(s.no_duplicates());
    s.lemma_multiset_has_no_duplicates();
    t.lemma_multiset_has_no_duplicates_conv();
    assert forall|i: int| 0 <= i < t.len() implies layout_part(#[trigger] t[i]) is Some by {
        assert(s.contains(t[i]));
    }
    assert forall|i: int, j: int|
        #![trigger t[i], t[j]]
        0 <= i < j < t.len() implies layout_part(t[i]) != layout_part(t[j]) by {
        assert(s.contains(t[i]) && s.contains(t[j]));
        let a = choose|a: int| 0 <= a < s.len() && s[a] == t[i];
        let b = choose|b: int| 0 <= b < s.len() && s[b] == t[j];
        if a < b {
            assert(layout_part(s[a]) != layout_part(s[b]));
        } else {
            assert(layout_part(s[b]) != layout_part(s[a]));
        }
    }
}

/// What the text of a layout is made of.
pub proof fn lemma_layout_text_chars(l: ChainLayout)
    ensures
        no_space(layout_text(l)),
        lacks(layout_text(l), ','),
        lacks(layout_text(l), ':'),
        3 <= layout_text(l).len() <= 4,
{
}

/// The first LED of the chain is in the corner that the layout names, whatever
/// the axis and the wiring.
pub proof fn lemma_starts_in_corner(l: ChainLayout, width: int, height: int)
    requires
        width > 0,
        height > 0,
    ensures
        pixel_of(l, 0, width, height) == (
            if l.h_edge == HEdge::Left {
                0
            } else {
                width - 1
            },
            if l.v_edge == VEdge::Top {
                0
            } else {
                height - 1
            },
        ),
        ({
            let x = if l.h_edge == HEdge::Left {
                0
            } else {
                width - 1
            };
            let y = if l.v_edge == VEdge::Top {
                0
            } else {
                height - 1
            };
            l.chain_index(x, y, width, height) == 0
        }),
{
    let n = l.line_len(width, height);
    lemma_div_basics(n);
    lemma_small_mod(0, n as nat);
    lemma_mul_by_zero_is_zero(n);
}

/// How far a pixel is from the edges that a layout names: to the side, and up
/// or down.
pub open spec fn steps_in(l: ChainLayout, x: int, y: int, width: int, height: int) -> (int, int) {
    (
        if l.h_edge == HEdge::Left {
            x
        } else {
            width - 1 - x
        },
        if l.v_edge == VEdge::Top {
            y
        } else {
            height - 1 - y
        },
    )
}

/// Where the LEDs of a chain of rows are: row after row away from the named
/// edge, `width` LEDs each, from the named side, or on every other row of a
/// serpentine chain from the opposite one.
pub proof fn lemma_rows(l: ChainLayout, row: int, k: int, width: int, height: int)
    requires
        l.axis == Axis::Row,
        0 <= k < width,
        0 <= row < height,
    ensures
        ({
            let (x, y) = pixel_of(l, row * width + k, width, height);
            let (across, down) = steps_in(l, x, y, width, height);
            &&& down == row
            &&& across == if l.serpentine && row % 2 == 1 {
                width - 1 - k
            } else {
                k
            }
        }),
{
    lemma_fundamental_div_mod_converse(row * width + k, width, row, k);
}

/// The same for a chain of columns, `height` LEDs each.
pub proof fn lemma_columns(l: ChainLayout, column: int, k: int, width: int, height: int)
    requires
        l.axis == Axis::Column,
        0 <= k < height,
        0 <= column < width,
    ensures
        ({
            let (x, y) = pixel_of(l, column * height + k, width, height);
            let (across, down) = steps_in(l, x, y, width, height);
            &&& across == column
            &&& down == if l.serpentine && column % 2 == 1 {
                height - 1 - k
            } else {
                k
            }
        }),
{
    lemma_fundamental_div_mod_converse(column * height + k, height, column, k);
}

/// The place of a pixel in a chain that is not serpentine: the lines between
/// it and the named corner, then the pixels between it and its line's start.
pub proof fn lemma_plain_chain_index(l: ChainLayout, x: int, y: int, width: int, height: int)
    requires
        !l.serpentine,
        0 <= x < width,
        0 <= y < height,
    ensures
        ({
            let (across, down) = steps_in(l, x, y, width, height);
            l.chain_index(x, y, width, height) == if l.axis == Axis::Row {
                down * width + across
            } else {
                across * height + down
            }
        }),
{
}

/// A line runs forward exactly where its LEDs go to larger coordinates, that
/// is to the right or down.
pub proof fn lemma_forward_grows(l: ChainLayout, line: int, k: int, width: int, height: int)
    requires
        0 <= k,
        l.axis == Axis::Row ==> k + 1 < width && 0 <= line < height,
        l.axis == Axis::Column ==> k + 1 < height && 0 <= line < width,
    ensures
        ({
            let n = if l.axis == Axis::Row {
                width
            } else {
                height
            };
            let (x1, y1) = pixel_of(l, line * n + k, width, height);
            let (x2, y2) = pixel_of(l, line * n + k + 1, width, height);
            if l.forward(line) {
                x2 + y2 == x1 + y1 + 1
            } else {
                x2 + y2 == x1 + y1 - 1
            }
        }),
{
    let n = l.line_len(width, height);
    lemma_fundamental_div_mod_converse(line * n + k, n, line, k);
    lemma_fundamental_div_mod_converse(line * n + k + 1, n, line, k + 1);
}

/// What each character of a layout says, whatever stands beside it; without
/// one the edge is the left or the top one, the axis the row, the wiring plain.
pub proof fn lemma_layout_letters(s: Seq<char>, i: int)
    requires
        0 <= i < s.len(),
        layout_of(s) is Some,
    ensures
        ({
            let l = layout_of(s)->0;
            &&& s[i] == 'r' ==> l.h_edge == HEdge::Right
            &&& s[i] == 'l' ==> l.h_edge == HEdge::Left
            &&& s[i] == 'b' ==> l.v_edge == VEdge::Bottom
            &&& s[i] == 't' ==> l.v_edge == VEdge::Top
            &&& s[i] == 'y' ==> l.axis == Axis::Column
            &&& s[i] == 'x' ==> l.axis == Axis::Row
            &&& s[i] == 'i' ==> l.serpentine
            &&& s[i] == 'r' || s[i] == 'l' || s[i] == 't' || s[i] == 'b' || s[i] == 'x' || s[i]
                == 'y' || s[i] == 'i'
            &&& s.len() <= 4
        }),
        ({
            let l = layout_of(s)->0;
            &&& lacks(s, 'r') && lacks(s, 'l') ==> l.h_edge == HEdge::Left
            &&& lacks(s, 't') && lacks(s, 'b') ==> l.v_edge == VEdge::Top
            &&& lacks(s, 'x') && lacks(s, 'y') ==> l.axis == Axis::Row
            &&& lacks(s, 'i') ==> !l.serpentine
        }),
{
    assert(layout_part(s[i]) is Some);
    if s.contains('r') {
        let j = choose|j: int| 0 <= j < s.len() && s[j] == 'r';
        assert(i != j ==> layout_part(s[i]) != layout_part(s[j]));
    }
    if s.contains('b') {
        let j = choose|j: int| 0 <= j < s.len() && s[j] == 'b';
        assert(i != j ==> layout_part(s[i]) != layout_part(s[j]));
    }
    if s.contains('y') {
        let j = choose|j: int| 0 <= j < s.len() && s[j] == 'y';
        assert(i != j ==> layout_part(s[i]) != layout_part(s[j]));
    }
    if s.len() > 4 {
        assert(layout_part(s[0]) is Some && layout_part(s[1]) is Some && layout_part(s[2]) is Some
            && layout_part(s[3]) is Some && layout_part(s[4]) is Some);
        assert(layout_part(s[0]) != layout_part(s[1]));
        assert(layout_part(s[0]) != layout_part(s[2]));
        assert(layout_part(s[0]) != layout_part(s[3]));
        assert(layout_part(s[0]) != layout_part(s[4]));
        assert(layout_part(s[1]) != layout_part(s[2]));
        assert(layout_part(s[1]) != layout_part(s[3]));
        assert(layout_part(s[1]) != layout_part(s[4]));
        assert(layout_part(s[2]) != layout_part(s[3]));
        assert(layout_part(s[2]) != layout_part(s[4]));
        assert(layout_part(s[3]) != layout_part(s[4]));
    }
}

/// Every text of the seven letters that says nothing twice is a layout.
pub proof fn lemma_layout_accepts(s: Seq<char>)
    requires
        forall|i: int|
            0 <= i < s.len() ==> (#[trigger] s[i] == 'r' || s[i] == 'l' || s[i] == 't' || s[i] == 'b'
                || s[i] == 'x' || s[i] == 'y' || s[i] == 'i'),
        s.no_duplicates(),
        !(s.contains('r') && s.contains('l')),
        !(s.contains('t') && s.contains('b')),
        !(s.contains('x') && s.contains('y')),
    ensures
        layout_of(s) is Some,
{
    assert forall|i: int, j: int|
        #![trigger s[i], s[j]]
        0 <= i < j < s.len() implies layout_part(s[i]) != layout_part(s[j]) by {
        assert(s[i] != s[j]);
        assert(s.contains(s[i]) && s.contains(s[j]));
    }
}

} // verus!
