//! What holds of every pixel sequence that stands for a literal.

use vstd::arithmetic::power2::{lemma2_to64, lemma_pow2_adds, lemma_pow2_pos, pow2};
use vstd::prelude::*;
use crate::color::{bit_pattern, Color, MAX_MAGNITUDE};
use crate::encoder::{
    groups, is_int, is_literal, is_pixels, is_term, is_terms, is_text, placing, previous,
    EASY_NUMBER, INSTANT_NUMBER,
};
use crate::instructions::InstructionView;
use crate::params::color_in;

verus! {

/// Whether a pixel of color `c` is safe in a literal: it is the pixel of one
/// of the four operations that put literals together, or it is in no color
/// that the palette has given to an operation.
pub open spec fn safe(c: Color, palette: Map<InstructionView, Color>) -> bool {
    ||| !palette.values().contains(c)
    ||| c == color_in(palette, InstructionView::Sub)
    ||| c == color_in(palette, InstructionView::Lshift)
    ||| c == color_in(palette, InstructionView::Sum)
    ||| c == color_in(palette, InstructionView::Dup)
}

/// Whether every pixel of `pixels` is safe.
pub open spec fn all_safe(pixels: Seq<Color>, palette: Map<InstructionView, Color>) -> bool {
    forall|i: int| 0 <= i < pixels.len() ==> safe(#[trigger] pixels[i], palette)
}

/// Two runs of safe pixels, one behind the other, are a run of safe pixels.
proof fn lemma_safe_parts(pixels: Seq<Color>, cut: int, palette: Map<InstructionView, Color>)
    requires
        0 <= cut <= pixels.len(),
        all_safe(pixels.subrange(0, cut), palette),
        all_safe(pixels.subrange(cut, pixels.len() as int), palette),
    ensures
        all_safe(pixels, palette),
{
    assert forall|i: int| 0 <= i < pixels.len() implies safe(#[trigger] pixels[i], palette) by {
        if i < cut {
            assert(pixels.subrange(0, cut)[i] == pixels[i]);
        } else {
            assert(pixels.subrange(cut, pixels.len() as int)[i - cut] == pixels[i]);
        }
    }
}

/// No data pixel of a magnitude is in a color of the palette: every pixel
/// that stands for it is a free one or a subtraction.
pub proof fn lemma_literal_safe(
    pixels: Seq<Color>,
    value: int,
    palette: Map<InstructionView, Color>,
    depth: nat,
)
    requires
        is_literal(pixels, value, palette, depth),
    ensures
        all_safe(pixels, palette),
        pixels.len() > 0,
    decreases depth,
{
    if pixels.len() == 1 && pixels[0].magnitude() == value && !palette.values().contains(
        pixels[0],
    ) {
    } else {
        let cut = choose|cut: int|
            {
                &&& 0 <= cut < pixels.len()
                &&& is_literal(
                    #[trigger] pixels.subrange(0, cut),
                    value + EASY_NUMBER,
                    palette,
                    (depth - 1) as nat,
                )
                &&& is_literal(
                    pixels.subrange(cut, pixels.len() - 1),
                    EASY_NUMBER as int,
                    palette,
                    (depth - 1) as nat,
                )
            };
        let high = pixels.subrange(0, cut);
        let low = pixels.subrange(cut, pixels.len() - 1);
        lemma_literal_safe(high, value + EASY_NUMBER, palette, (depth - 1) as nat);
        lemma_literal_safe(low, EASY_NUMBER as int, palette, (depth - 1) as nat);
        assert forall|i: int| 0 <= i < pixels.len() implies safe(#[trigger] pixels[i], palette) by {
            if i < cut {
                assert(high[i] == pixels[i]);
            } else if i < pixels.len() - 1 {
                assert(low[i - cut] == pixels[i]);
            }
        }
    }
}

/// No data pixel of a group is in a color of the palette.
pub proof fn lemma_term_safe(
    pixels: Seq<Color>,
    group: (int, int),
    first: bool,
    palette: Map<InstructionView, Color>,
    depth: nat,
)
    requires
        is_term(pixels, group, first, palette, depth),
    ensures
        all_safe(pixels, palette),
{
    let tail = placing(palette, group.1 != 0, first);
    let end = pixels.len() - tail.len();
    let body = pixels.subrange(0, end);
    assert(all_safe(pixels.subrange(end, pixels.len() as int), palette));
    if group.1 == 0 {
        lemma_literal_safe(body, group.0, palette, depth);
    } else {
        let cut = choose|cut: int|
            {
                &&& 0 <= cut <= end
                &&& is_literal(#[trigger] pixels.subrange(0, cut), group.0, palette, depth)
                &&& is_literal(pixels.subrange(cut, end), group.1, palette, depth)
            };
        lemma_literal_safe(pixels.subrange(0, cut), group.0, palette, depth);
        lemma_literal_safe(pixels.subrange(cut, end), group.1, palette, depth);
        assert(body.subrange(0, cut) =~= pixels.subrange(0, cut));
        assert(body.subrange(cut, body.len() as int) =~= pixels.subrange(cut, end));
        lemma_safe_parts(body, cut, palette);
    }
    lemma_safe_parts(pixels, end, palette);
}

/// No data pixel of a run of groups is in a color of the palette.
pub proof fn lemma_terms_safe(
    pixels: Seq<Color>,
    groups: Seq<(int, int)>,
    palette: Map<InstructionView, Color>,
    depth: nat,
)
    requires
        is_terms(pixels, groups, palette, depth),
    ensures
        all_safe(pixels, palette),
    decreases groups.len(),
{
    if groups.len() > 0 {
        let cut = choose|cut: int|
            {
                &&& 0 <= cut <= pixels.len()
                &&& is_terms(#[trigger] pixels.subrange(0, cut), groups.drop_last(), palette, depth)
                &&& is_term(
                    pixels.subrange(cut, pixels.len() as int),
                    groups.last(),
                    groups.len() == 1,
                    palette,
                    depth,
                )
            };
        lemma_terms_safe(pixels.subrange(0, cut), groups.drop_last(), palette, depth);
        lemma_term_safe(
            pixels.subrange(cut, pixels.len() as int),
            groups.last(),
            groups.len() == 1,
            palette,
            depth,
        );
        lemma_safe_parts(pixels, cut, palette);
    }
}

/// No data pixel of an integer is in a color of the palette.
pub proof fn lemma_int_safe(
    pixels: Seq<Color>,
    n: int,
    palette: Map<InstructionView, Color>,
    depth: nat,
)
    requires
        is_int(pixels, n, palette, depth),
    ensures
        all_safe(pixels, palette),
{
    if bit_pattern(n) <= INSTANT_NUMBER {
        lemma_literal_safe(pixels, bit_pattern(n), palette, depth);
    } else {
        lemma_terms_safe(pixels, groups(bit_pattern(n), 0), palette, depth);
    }
}

/// No data pixel of a text is in a color of the palette.
pub proof fn lemma_text_safe(
    pixels: Seq<Color>,
    text: Seq<char>,
    palette: Map<InstructionView, Color>,
    depth: nat,
)
    requires
        is_text(pixels, text, palette, depth),
    ensures
        all_safe(pixels, palette),
    decreases text.len(),
{
    if text.len() == 0 {
        lemma_int_safe(pixels, 0, palette, depth);
    } else {
        let cut = choose|cut: int|
            {
                &&& 0 <= cut <= pixels.len()
                &&& is_text(#[trigger] pixels.subrange(0, cut), text.drop_last(), palette, depth)
                &&& if text.last() == previous(text) {
                    pixels.subrange(cut, pixels.len() as int) == seq![
                        color_in(palette, InstructionView::Dup),
                    ]
                } else {
                    is_int(
                        pixels.subrange(cut, pixels.len() as int),
                        text.last() as int,
                        palette,
                        depth,
                    )
                }
            };
        lemma_text_safe(pixels.subrange(0, cut), text.drop_last(), palette, depth);
        if text.last() != previous(text) {
            lemma_int_safe(
                pixels.subrange(cut, pixels.len() as int),
                text.last() as int,
                palette,
                depth,
            );
        }
        lemma_safe_parts(pixels, cut, palette);
    }
}

/// Whatever was drawn at random, no data pixel of a compiled text or integer
/// is in a color that the palette has given to an operation.
pub proof fn lemma_literal_pixels_safe(
    pixels: Seq<Color>,
    op: InstructionView,
    palette: Map<InstructionView, Color>,
    depth: nat,
)
    requires
        op is RawString || op is RawInt,
        !palette.contains_key(op),
        is_pixels(pixels, op, palette, depth),
    ensures
        all_safe(pixels, palette),
{
    match op {
        InstructionView::RawString(text) => lemma_text_safe(pixels, text, palette, depth),
        InstructionView::RawInt(n) => lemma_int_safe(pixels, n as int, palette, depth),
        _ => {},
    }
}

/// The number that a run of groups stands for: each group is worth its nine
/// bits shifted left to the bit it starts at, and the groups are added.
pub open spec fn groups_value(groups: Seq<(int, int)>) -> int
    decreases groups.len(),
{
    if groups.len() == 0 {
        0
    } else {
        groups[0].0 * pow2(groups[0].1 as nat) + groups_value(groups.drop_first())
    }
}

/// Shifted to their places and added, the groups of a number give the number
/// back.
pub proof fn lemma_groups_value(bits: int, shift: int)
    requires
        bits >= 0,
        shift >= 0,
    ensures
        groups_value(groups(bits, shift)) == bits * pow2(shift as nat),
    decreases bits,
{
    lemma_pow2_pos(shift as nat);
    if bits <= 0 {
        assert(bits * pow2(shift as nat) == 0) by (nonlinear_arith)
            requires
                bits == 0,
        ;
    } else if bits % 2 == 1 {
        let rest = groups(bits / 512, shift + 9);
        let all = groups(bits, shift);
        assert(all =~= seq![(bits % 512, shift)] + rest);
        assert(all.drop_first() =~= rest);
        lemma_groups_value(bits / 512, shift + 9);
        lemma_pow2_adds(shift as nat, 9);
        lemma2_to64();
        let p = pow2(shift as nat) as int;
        assert(pow2((shift + 9) as nat) == p * 512);
        assert((bits % 512) * p + (bits / 512) * (p * 512) == bits * p) by (nonlinear_arith)
            requires
                bits == 512 * (bits / 512) + bits % 512,
        ;
    } else {
        lemma_groups_value(bits / 2, shift + 1);
        lemma_pow2_adds(shift as nat, 1);
        lemma2_to64();
        let p = pow2(shift as nat) as int;
        assert(pow2((shift + 1) as nat) == p * 2);
        assert((bits / 2) * (p * 2) == bits * p) by (nonlinear_arith)
            requires
                bits == 2 * (bits / 2),
        ;
    }
}

/// The groups of an integer, shifted to their places and added, give the
/// bits of the integer, read as an unsigned number.
pub proof fn lemma_int_groups(n: i32)
    ensures
        groups_value(groups(bit_pattern(n as int), 0)) == bit_pattern(n as int),
{
    lemma_groups_value(bit_pattern(n as int), 0);
    lemma2_to64();
}

/// Every group of a 32-bit number asks for magnitudes that one pixel can
/// carry: its nine bits are between 1 and 511, and it starts at one of the
/// bits 0 to 31.
pub proof fn lemma_groups_in_range(bits: int, shift: int, k: int)
    requires
        0 <= bits,
        0 <= shift,
        bits * pow2(shift as nat) < 0x1_0000_0000,
        0 <= k < groups(bits, shift).len(),
    ensures
        1 <= groups(bits, shift)[k].0 <= 511,
        shift <= groups(bits, shift)[k].1 <= 31,
        groups(bits, shift)[k].0 <= MAX_MAGNITUDE,
    decreases bits,
{
    lemma_pow2_pos(shift as nat);
    lemma2_to64();
    let p = pow2(shift as nat) as int;
    if bits <= 0 {
    } else {
        assert(shift <= 31) by {
            if shift >= 32 {
                lemma_pow2_adds(32, (shift - 32) as nat);
                lemma_pow2_pos((shift - 32) as nat);
                let q = pow2((shift - 32) as nat) as int;
                assert(p == 0x1_0000_0000 * q);
                assert(bits * p >= 0x1_0000_0000) by (nonlinear_arith)
                    requires
                        bits >= 1,
                        q >= 1,
                        p == 0x1_0000_0000 * q,
                ;
            }
        }
        if bits % 2 == 1 {
            let rest = groups(bits / 512, shift + 9);
            assert(groups(bits, shift) =~= seq![(bits % 512, shift)] + rest);
            if k > 0 {
                lemma_pow2_adds(shift as nat, 9);
                assert(pow2((shift + 9) as nat) == p * 512);
                assert((bits / 512) * (p * 512) <= bits * p) by (nonlinear_arith)
                    requires
                        bits == 512 * (bits / 512) + bits % 512,
                        bits % 512 >= 0,
                        p >= 0,
                ;
                lemma_groups_in_range(bits / 512, shift + 9, k - 1);
                assert(groups(bits, shift)[k] == rest[k - 1]);
            }
        } else {
            lemma_pow2_adds(shift as nat, 1);
            assert(pow2((shift + 1) as nat) == p * 2);
            assert((bits / 2) * (p * 2) == bits * p) by (nonlinear_arith)
                requires
                    bits == 2 * (bits / 2),
            ;
            lemma_groups_in_range(bits / 2, shift + 1, k);
        }
    }
}

/// The number of values that `m` groups of nine bits can tell apart.
pub open spec fn span(m: nat) -> int
    decreases m,
{
    if m == 0 {
        1
    } else {
        512 * span((m - 1) as nat)
    }
}

/// A number below `span(m)` has at most `m` groups, wherever the scan
/// starts.
pub proof fn lemma_groups_count(bits: int, shift: int, m: nat)
    requires
        bits < span(m),
    ensures
        groups(bits, shift).len() <= m,
    decreases bits,
{
    if bits <= 0 {
    } else if bits % 2 == 1 {
        assert(m > 0);
        lemma_groups_count(bits / 512, shift + 9, (m - 1) as nat);
    } else {
        lemma_groups_count(bits / 2, shift + 1, m);
    }
}

/// A positive number has a group.
pub proof fn lemma_groups_some(bits: int, shift: int)
    requires
        bits > 0,
    ensures
        groups(bits, shift).len() > 0,
    decreases bits,
{
    if bits % 2 == 0 {
        lemma_groups_some(bits / 2, shift + 1);
    }
}

/// A 32-bit integer has at most four groups, whatever its size.
pub proof fn lemma_groups_few(n: i32)
    ensures
        groups(bit_pattern(n as int), 0).len() <= 4,
{
    assert(span(4) == 0x10_0000_0000) by {
        reveal_with_fuel(span, 5);
    }
    lemma_groups_count(bit_pattern(n as int), 0, 4);
}

/// Without detours a run of groups takes at most four pixels for each
/// group, and one less for the first.
pub proof fn lemma_direct_terms_length(
    pixels: Seq<Color>,
    groups: Seq<(int, int)>,
    palette: Map<InstructionView, Color>,
)
    requires
        is_terms(pixels, groups, palette, 0),
    ensures
        groups.len() <= pixels.len() <= 4 * groups.len(),
        groups.len() > 0 ==> pixels.len() < 4 * groups.len(),
    decreases groups.len(),
{
    if groups.len() > 0 {
        let cut = choose|cut: int|
            {
                &&& 0 <= cut <= pixels.len()
                &&& is_terms(#[trigger] pixels.subrange(0, cut), groups.drop_last(), palette, 0)
                &&& is_term(
                    pixels.subrange(cut, pixels.len() as int),
                    groups.last(),
                    groups.len() == 1,
                    palette,
                    0,
                )
            };
        lemma_direct_terms_length(pixels.subrange(0, cut), groups.drop_last(), palette);
        let term = pixels.subrange(cut, pixels.len() as int);
        let group = groups.last();
        let tail = placing(palette, group.1 != 0, groups.len() == 1);
        let end = term.len() - tail.len();
        if group.1 == 0 {
            assert(term.subrange(0, end).len() == 1);
        } else {
            let at = choose|at: int|
                {
                    &&& 0 <= at <= end
                    &&& is_literal(#[trigger] term.subrange(0, at), group.0, palette, 0)
                    &&& is_literal(term.subrange(at, end), group.1, palette, 0)
                };
            assert(term.subrange(0, at).len() == 1);
            assert(term.subrange(at, end).len() == 1);
        }
    }
}

/// Without detours a 32-bit integer takes at most fifteen pixels, whatever
/// its size.
pub proof fn lemma_direct_int_length(
    pixels: Seq<Color>,
    n: i32,
    palette: Map<InstructionView, Color>,
)
    requires
        is_int(pixels, n as int, palette, 0),
    ensures
        1 <= pixels.len() <= 15,
{
    if bit_pattern(n as int) > INSTANT_NUMBER {
        lemma_groups_few(n);
        lemma_direct_terms_length(pixels, groups(bit_pattern(n as int), 0), palette);
        lemma_groups_some(bit_pattern(n as int), 0);
    }
}

} // verus!
