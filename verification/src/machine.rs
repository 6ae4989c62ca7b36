//! What the pixels of a literal do on the stack machine that runs the image.
//!
//! The machine reads the pixels in order. A pixel in the color of an
//! operation is that operation; any other pixel pushes the sum of its
//! channels. Only the four operations that literals are put together with
//! are modelled here. The values on the stack are 32-bit words, and an
//! operation whose result is no such word, or that finds too few values, has
//! no place in a literal.

use vstd::arithmetic::power2::{lemma2_to64, lemma_pow2_pos, pow2};
use vstd::prelude::*;
use crate::color::{bit_pattern, Color, MAX_MAGNITUDE};
use crate::encoder::{
    groups, is_int, is_literal, is_term, is_terms, is_text, placing, previous, EASY_NUMBER,
    INSTANT_NUMBER,
};
use crate::instructions::InstructionView;
use crate::params::{color_in, default_palette};
use crate::soundness::{groups_value, lemma_groups_in_range, lemma_groups_value};

verus! {

/// Whether `x` is a 32-bit word, read as an unsigned number.
pub open spec fn is_word(x: int) -> bool {
    0 <= x < 0x1_0000_0000
}

/// Whether the machine can tell the pixels of a literal apart under
/// `palette`: subtraction, shift, sum and duplication have colors in the
/// palette, and no two of them the same.
pub open spec fn readable(palette: Map<InstructionView, Color>) -> bool {
    let sub = InstructionView::Sub;
    let lshift = InstructionView::Lshift;
    let sum = InstructionView::Sum;
    let dup = InstructionView::Dup;
    &&& palette.contains_key(sub)
    &&& palette.contains_key(lshift)
    &&& palette.contains_key(sum)
    &&& palette.contains_key(dup)
    &&& palette[sub] != palette[lshift]
    &&& palette[sub] != palette[sum]
    &&& palette[sub] != palette[dup]
    &&& palette[lshift] != palette[sum]
    &&& palette[lshift] != palette[dup]
    &&& palette[sum] != palette[dup]
}

/// The stack with its two topmost values replaced by `value`; nothing where
/// it holds fewer than two values or `value` is no word.
pub open spec fn combined(stack: Seq<int>, value: int) -> Option<Seq<int>> {
    if stack.len() >= 2 && is_word(value) {
        Some(stack.take(stack.len() - 2).push(value))
    } else {
        None
    }
}

/// The stack after one pixel. With `a` below `b` on top, subtraction leaves
/// `a - b`, shift leaves `a` shifted left by `b` bits, and sum leaves
/// `a + b`; duplication pushes the top once more; a pixel in none of these
/// colors pushes the sum of its channels.
pub open spec fn step(stack: Seq<int>, pixel: Color, palette: Map<InstructionView, Color>)
    -> Option<Seq<int>> {
    let a = stack[stack.len() - 2];
    let b = stack[stack.len() - 1];
    if pixel == color_in(palette, InstructionView::Sub) {
        combined(stack, a - b)
    } else if pixel == color_in(palette, InstructionView::Lshift) {
        if b >= 0 {
            combined(stack, a * pow2(b as nat))
        } else {
            None
        }
    } else if pixel == color_in(palette, InstructionView::Sum) {
        combined(stack, a + b)
    } else if pixel == color_in(palette, InstructionView::Dup) {
        if stack.len() >= 1 {
            Some(stack.push(b))
        } else {
            None
        }
    } else {
        Some(stack.push(pixel.magnitude()))
    }
}

/// The stack after the pixels were read in order; nothing where one of them
/// could not be carried out.
pub open spec fn run(stack: Seq<int>, pixels: Seq<Color>, palette: Map<InstructionView, Color>)
    -> Option<Seq<int>>
    decreases pixels.len(),
{
    if pixels.len() == 0 {
        Some(stack)
    } else {
        match run(stack, pixels.drop_last(), palette) {
            None => None,
            Some(before) => step(before, pixels.last(), palette),
        }
    }
}

/// Reading a run of pixels is reading its first part and then the rest.
pub proof fn lemma_run_parts(
    stack: Seq<int>,
    pixels: Seq<Color>,
    cut: int,
    palette: Map<InstructionView, Color>,
)
    requires
        0 <= cut <= pixels.len(),
    ensures
        run(stack, pixels, palette) == match run(stack, pixels.subrange(0, cut), palette) {
            None => None,
            Some(middle) => run(middle, pixels.subrange(cut, pixels.len() as int), palette),
        },
    decreases pixels.len() - cut,
{
    let head = pixels.subrange(0, cut);
    let tail = pixels.subrange(cut, pixels.len() as int);
    if cut == pixels.len() {
        assert(head =~= pixels);
    } else {
        lemma_run_parts(stack, pixels.drop_last(), cut, palette);
        assert(pixels.drop_last().subrange(0, cut) =~= head);
        assert(pixels.drop_last().subrange(cut, pixels.len() - 1) =~= tail.drop_last());
        assert(tail.last() == pixels.last());
    }
}

/// A data pixel pushes its magnitude: it is in none of the four colors.
proof fn lemma_data_pixel(stack: Seq<int>, pixel: Color, palette: Map<InstructionView, Color>)
    requires
        readable(palette),
        !palette.values().contains(pixel),
    ensures
        run(stack, seq![pixel], palette) == Some(stack.push(pixel.magnitude())),
{
    assert(palette.values().contains(palette[InstructionView::Sub]));
    assert(palette.values().contains(palette[InstructionView::Lshift]));
    assert(palette.values().contains(palette[InstructionView::Sum]));
    assert(palette.values().contains(palette[InstructionView::Dup]));
    lemma_one_pixel(stack, pixel, palette);
}

/// Reading one pixel is one step.
proof fn lemma_one_pixel(stack: Seq<int>, pixel: Color, palette: Map<InstructionView, Color>)
    ensures
        run(stack, seq![pixel], palette) == step(stack, pixel, palette),
{
    let pixels = seq![pixel];
    assert(pixels.drop_last() =~= Seq::<Color>::empty());
    assert(run(stack, pixels.drop_last(), palette) == Some(stack));
}

/// The pixels of a magnitude push that magnitude, and nothing else is
/// touched.
pub proof fn lemma_literal_pushes(
    stack: Seq<int>,
    pixels: Seq<Color>,
    value: int,
    palette: Map<InstructionView, Color>,
    depth: nat,
)
    requires
        readable(palette),
        0 <= value,
        is_literal(pixels, value, palette, depth),
    ensures
        run(stack, pixels, palette) == Some(stack.push(value)),
        value <= MAX_MAGNITUDE,
    decreases depth,
{
    if pixels.len() == 1 && pixels[0].magnitude() == value && !palette.values().contains(
        pixels[0],
    ) {
        assert(pixels =~= seq![pixels[0]]);
        lemma_data_pixel(stack, pixels[0], palette);
    } else {
        let cut = choose|cut: int|
            {
                &&& 0 <= cut < pixels.len()
                &&& is_literal(
                    #[trigger] pixels.subrange(0, cut),
                    value + EASY_NUMBER,
                    palette,
                    (depth - 1) as nat,
                )
                &&& is_literal(
                    pixels.subrange(cut, pixels.len() - 1),
                    EASY_NUMBER as int,
                    palette,
                    (depth - 1) as nat,
                )
            };
        let end = pixels.len() - 1;
        let high = pixels.subrange(0, cut);
        let low = pixels.subrange(cut, end);
        let body = pixels.subrange(0, end);
        let last = pixels.subrange(end, pixels.len() as int);
        lemma_literal_pushes(stack, high, value + EASY_NUMBER, palette, (depth - 1) as nat);
        let first = stack.push(value + EASY_NUMBER);
        lemma_literal_pushes(first, low, EASY_NUMBER as int, palette, (depth - 1) as nat);
        let second = first.push(EASY_NUMBER as int);
        assert(body.subrange(0, cut) =~= high);
        assert(body.subrange(cut, body.len() as int) =~= low);
        lemma_run_parts(stack, body, cut, palette);
        lemma_run_parts(stack, pixels, end, palette);
        assert(last =~= seq![pixels.last()]);
        lemma_one_pixel(second, pixels.last(), palette);
        assert(second.take(second.len() - 2).push(value) =~= stack.push(value));
    }
}

/// What one group is worth: its nine bits, shifted left to the bit it starts
/// at.
pub open spec fn group_value(group: (int, int)) -> int {
    group.0 * pow2(group.1 as nat)
}

/// The pixels of a group push what the group is worth, or, behind other
/// groups, add it to the total on top of the stack.
pub proof fn lemma_term_adds(
    stack: Seq<int>,
    pixels: Seq<Color>,
    group: (int, int),
    first: bool,
    palette: Map<InstructionView, Color>,
    depth: nat,
)
    requires
        readable(palette),
        0 <= group.0,
        0 <= group.1,
        is_term(pixels, group, first, palette, depth),
        first ==> is_word(group_value(group)),
        !first ==> stack.len() >= 1 && is_word(group_value(group)) && is_word(
            stack.last() + group_value(group),
        ),
    ensures
        run(stack, pixels, palette) == if first {
            Some(stack.push(group_value(group)))
        } else {
            Some(stack.drop_last().push(stack.last() + group_value(group)))
        },
{
    let tail = placing(palette, group.1 != 0, first);
    let end = pixels.len() - tail.len();
    let body = pixels.subrange(0, end);
    let rest = pixels.subrange(end, pixels.len() as int);
    lemma_run_parts(stack, pixels, end, palette);
    lemma2_to64();
    // what the data pixels of the group leave
    let pushed = if group.1 == 0 {
        stack.push(group.0)
    } else {
        stack.push(group.0).push(group.1)
    };
    assert(run(stack, body, palette) == Some(pushed)) by {
        if group.1 == 0 {
            lemma_literal_pushes(stack, body, group.0, palette, depth);
        } else {
            let cut = choose|cut: int|
                {
                    &&& 0 <= cut <= end
                    &&& is_literal(#[trigger] pixels.subrange(0, cut), group.0, palette, depth)
                    &&& is_literal(pixels.subrange(cut, end), group.1, palette, depth)
                };
            assert(body.subrange(0, cut) =~= pixels.subrange(0, cut));
            assert(body.subrange(cut, body.len() as int) =~= pixels.subrange(cut, end));
            lemma_run_parts(stack, body, cut, palette);
            lemma_literal_pushes(stack, pixels.subrange(0, cut), group.0, palette, depth);
            lemma_literal_pushes(
                stack.push(group.0),
                pixels.subrange(cut, end),
                group.1,
                palette,
                depth,
            );
        }
    }
    // the shift, if there is one
    let lshift = color_in(palette, InstructionView::Lshift);
    let sum = color_in(palette, InstructionView::Sum);
    let shifted = stack.push(group_value(group));
    let shifts: Seq<Color> = if group.1 != 0 {
        seq![lshift]
    } else {
        Seq::empty()
    };
    let sums: Seq<Color> = if first {
        Seq::empty()
    } else {
        seq![sum]
    };
    assert(rest == shifts + sums);
    assert(rest.subrange(0, shifts.len() as int) =~= shifts);
    assert(rest.subrange(shifts.len() as int, rest.len() as int) =~= sums);
    lemma_run_parts(pushed, rest, shifts.len() as int, palette);
    assert(run(pushed, shifts, palette) == Some(shifted)) by {
        if group.1 != 0 {
            lemma_one_pixel(pushed, lshift, palette);
            assert(pushed.take(pushed.len() - 2).push(group_value(group)) =~= shifted);
        } else {
            assert(group.0 * 1 == group.0);
        }
    }
    if !first {
        lemma_one_pixel(shifted, sum, palette);
        assert(shifted.take(shifted.len() - 2).push(stack.last() + group_value(group))
            =~= stack.drop_last().push(stack.last() + group_value(group)));
    }
}

/// A run of groups is worth what it is worth without its last group, and
/// that group.
pub proof fn lemma_value_by_last(groups: Seq<(int, int)>)
    requires
        groups.len() > 0,
    ensures
        groups_value(groups) == groups_value(groups.drop_last()) + group_value(groups.last()),
    decreases groups.len(),
{
    if groups.len() == 1 {
        assert(groups.drop_first() =~= groups.drop_last());
    } else {
        lemma_value_by_last(groups.drop_first());
        assert(groups.drop_first().drop_last() =~= groups.drop_last().drop_first());
    }
}

/// Whether every group holds bits and starts at a bit: neither number is
/// negative.
pub open spec fn plain_groups(groups: Seq<(int, int)>) -> bool {
    forall|k: int| 0 <= k < groups.len() ==> (#[trigger] groups[k]).0 >= 0 && groups[k].1 >= 0
}

/// A run of such groups is worth no negative number.
pub proof fn lemma_value_nonnegative(groups: Seq<(int, int)>)
    requires
        plain_groups(groups),
    ensures
        groups_value(groups) >= 0,
    decreases groups.len(),
{
    if groups.len() > 0 {
        lemma_value_nonnegative(groups.drop_first());
        lemma_pow2_pos(groups[0].1 as nat);
        assert(groups[0].0 * pow2(groups[0].1 as nat) >= 0) by (nonlinear_arith)
            requires
                groups[0].0 >= 0,
                pow2(groups[0].1 as nat) > 0,
        ;
    }
}

/// The pixels of a run of groups push what the run is worth.
pub proof fn lemma_terms_push(
    stack: Seq<int>,
    pixels: Seq<Color>,
    groups: Seq<(int, int)>,
    palette: Map<InstructionView, Color>,
    depth: nat,
)
    requires
        readable(palette),
        groups.len() > 0,
        plain_groups(groups),
        is_word(groups_value(groups)),
        is_terms(pixels, groups, palette, depth),
    ensures
        run(stack, pixels, palette) == Some(stack.push(groups_value(groups))),
    decreases groups.len(),
{
    let cut = choose|cut: int|
        {
            &&& 0 <= cut <= pixels.len()
            &&& is_terms(#[trigger] pixels.subrange(0, cut), groups.drop_last(), palette, depth)
            &&& is_term(
                pixels.subrange(cut, pixels.len() as int),
                groups.last(),
                groups.len() == 1,
                palette,
                depth,
            )
        };
    let before = groups.drop_last();
    let last = groups.last();
    lemma_value_by_last(groups);
    lemma_value_nonnegative(before);
    lemma_pow2_pos(last.1 as nat);
    assert(group_value(last) >= 0) by (nonlinear_arith)
        requires
            last.0 >= 0,
            pow2(last.1 as nat) > 0,
            group_value(last) == last.0 * pow2(last.1 as nat),
    ;
    lemma_run_parts(stack, pixels, cut, palette);
    if groups.len() == 1 {
        assert(pixels.subrange(0, cut).len() == 0);
        assert(run(stack, pixels.subrange(0, cut), palette) == Some(stack));
        lemma_term_adds(
            stack,
            pixels.subrange(cut, pixels.len() as int),
            last,
            true,
            palette,
            depth,
        );
    } else {
        lemma_terms_push(stack, pixels.subrange(0, cut), before, palette, depth);
        let middle = stack.push(groups_value(before));
        lemma_term_adds(
            middle,
            pixels.subrange(cut, pixels.len() as int),
            last,
            false,
            palette,
            depth,
        );
        assert(middle.drop_last() =~= stack);
    }
}

/// The pixels of a 32-bit integer push its bits as one word: read by a
/// machine that can tell them apart, they leave the integer on top of the
/// stack and touch nothing below.
pub proof fn lemma_int_pushes(
    stack: Seq<int>,
    pixels: Seq<Color>,
    n: int,
    palette: Map<InstructionView, Color>,
    depth: nat,
)
    requires
        readable(palette),
        i32::MIN <= n <= i32::MAX,
        is_int(pixels, n, palette, depth),
    ensures
        run(stack, pixels, palette) == Some(stack.push(bit_pattern(n))),
{
    let bits = bit_pattern(n);
    if bits <= INSTANT_NUMBER {
        lemma_literal_pushes(stack, pixels, bits, palette, depth);
    } else {
        let groups = groups(bits, 0);
        lemma2_to64();
        lemma_groups_value(bits, 0);
        assert(bits * pow2(0) == bits);
        assert forall|k: int| 0 <= k < groups.len() implies (#[trigger] groups[k]).0 >= 0
            && groups[k].1 >= 0 by {
            lemma_groups_in_range(bits, 0, k);
        }
        lemma_terms_push(stack, pixels, groups, palette, depth);
    }
}

/// A code point fits in 21 bits.
proof fn lemma_code_point(c: char)
    ensures
        0 <= c as int <= 0x10FFFF,
{
}

/// The code points of the characters of `text`, in order.
pub open spec fn codes(text: Seq<char>) -> Seq<int> {
    Seq::new(text.len(), |i: int| text[i] as int)
}

/// The pixels of a text push a 0 and then the code points of its characters
/// in order, so that the last character ends up on top.
pub proof fn lemma_text_pushes(
    stack: Seq<int>,
    pixels: Seq<Color>,
    text: Seq<char>,
    palette: Map<InstructionView, Color>,
    depth: nat,
)
    requires
        readable(palette),
        is_text(pixels, text, palette, depth),
    ensures
        run(stack, pixels, palette) == Some(stack.push(0) + codes(text)),
    decreases text.len(),
{
    if text.len() == 0 {
        lemma_int_pushes(stack, pixels, 0, palette, depth);
        assert(stack.push(0) + codes(text) =~= stack.push(0));
    } else {
        let cut = choose|cut: int|
            {
                &&& 0 <= cut <= pixels.len()
                &&& is_text(#[trigger] pixels.subrange(0, cut), text.drop_last(), palette, depth)
                &&& if text.last() == previous(text) {
                    pixels.subrange(cut, pixels.len() as int) == seq![
                        color_in(palette, InstructionView::Dup),
                    ]
                } else {
                    is_int(
                        pixels.subrange(cut, pixels.len() as int),
                        text.last() as int,
                        palette,
                        depth,
                    )
                }
            };
        let shorter = text.drop_last();
        let middle = stack.push(0) + codes(shorter);
        let rest = pixels.subrange(cut, pixels.len() as int);
        lemma_text_pushes(stack, pixels.subrange(0, cut), shorter, palette, depth);
        lemma_run_parts(stack, pixels, cut, palette);
        assert(middle.push(text.last() as int) =~= stack.push(0) + codes(text));
        if text.last() == previous(text) {
            lemma_one_pixel(middle, color_in(palette, InstructionView::Dup), palette);
            assert(middle.last() == previous(text) as int) by {
                if text.len() >= 2 {
                    assert(codes(shorter).last() == shorter.last() as int);
                }
            }
            assert(rest =~= seq![color_in(palette, InstructionView::Dup)]);
        } else {
            lemma_code_point(text.last());
            lemma_int_pushes(middle, rest, text.last() as int, palette, depth);
        }
    }
}

/// Whether the pixels, read on any stack, leave `values` on top of it, the
/// last of them topmost, and touch nothing below.
pub open spec fn pushes(
    pixels: Seq<Color>,
    values: Seq<int>,
    palette: Map<InstructionView, Color>,
) -> bool {
    forall|stack: Seq<int>| #[trigger] run(stack, pixels, palette) == Some(stack + values)
}

/// The pixels of a magnitude leave the magnitude on the stack.
pub proof fn lemma_literal_meaning(
    pixels: Seq<Color>,
    value: int,
    palette: Map<InstructionView, Color>,
    depth: nat,
)
    requires
        readable(palette),
        0 <= value,
        is_literal(pixels, value, palette, depth),
    ensures
        pushes(pixels, seq![value], palette),
{
    assert forall|stack: Seq<int>| #[trigger]
        run(stack, pixels, palette) == Some(stack + seq![value]) by {
        lemma_literal_pushes(stack, pixels, value, palette, depth);
        assert(stack.push(value) =~= stack + seq![value]);
    }
}

/// The pixels of a 32-bit integer leave the integer on the stack, as the
/// word that holds its bits.
pub proof fn lemma_int_meaning(
    pixels: Seq<Color>,
    n: int,
    palette: Map<InstructionView, Color>,
    depth: nat,
)
    requires
        readable(palette),
        i32::MIN <= n <= i32::MAX,
        is_int(pixels, n, palette, depth),
    ensures
        pushes(pixels, seq![bit_pattern(n)], palette),
{
    assert forall|stack: Seq<int>| #[trigger]
        run(stack, pixels, palette) == Some(stack + seq![bit_pattern(n)]) by {
        lemma_int_pushes(stack, pixels, n, palette, depth);
        assert(stack.push(bit_pattern(n)) =~= stack + seq![bit_pattern(n)]);
    }
}

/// The pixels of a text leave a 0 and, above it, the code points of its
/// characters on the stack.
pub proof fn lemma_text_meaning(
    pixels: Seq<Color>,
    text: Seq<char>,
    palette: Map<InstructionView, Color>,
    depth: nat,
)
    requires
        readable(palette),
        is_text(pixels, text, palette, depth),
    ensures
        pushes(pixels, seq![0int] + codes(text), palette),
{
    assert forall|stack: Seq<int>| #[trigger]
        run(stack, pixels, palette) == Some(stack + (seq![0int] + codes(text))) by {
        lemma_text_pushes(stack, pixels, text, palette, depth);
        assert(stack.push(0) + codes(text) =~= stack + (seq![0int] + codes(text)));
    }
}

/// The machine can tell the pixels of a literal apart under the default
/// colors.
pub proof fn lemma_default_readable()
    ensures
        readable(default_palette()),
{
}

} // verus!
