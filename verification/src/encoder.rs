//! Compiling literals into pixels.
//!
//! A data pixel pushes the sum of its channels, so one pixel carries a
//! magnitude from 0 to 765. Its color must differ from every color of the
//! palette, or the machine would read it as an operation. Larger numbers are
//! put together from several data pixels by shifts and sums.

use vstd::prelude::*;
use crate::color::{bit_pattern, bits_of, code_point, Color, MAX_MAGNITUDE};
use crate::error::AllocationError;
use crate::instructions::{Instruction, InstructionView};
use crate::params::{color_in, Params};
use crate::parser::chars_of;
use crate::machine::{
    codes, lemma_int_meaning, lemma_literal_meaning, lemma_text_meaning, pushes, readable,
};
use crate::soundness::{all_safe, lemma_int_safe, lemma_literal_safe, lemma_text_safe};

verus! {

/// Integers up to this one are drawn as a single literal.
pub const INSTANT_NUMBER: u32 = 750;

/// What a detour adds to a magnitude whose colors are all taken: the
/// magnitude is then drawn as the difference of two others.
pub const EASY_NUMBER: i32 = 380;

/// Number of colors drawn at random for one magnitude before giving up.
pub const RETRY_RANDOM: u32 = 100;

/// Width in bits of the groups into which a large integer is cut.
pub const BIT_PER_COLOR: u32 = 9;

/// The bits of one group.
pub const BIT_MASK: u32 = 511;

/// Number of detours that may be nested for one magnitude.
pub const MAX_DETOURS: u32 = 8;

/// Whether no color of `palette` has the magnitude `value`, so that every
/// color of that magnitude is free.
pub open spec fn unclaimed(palette: Map<InstructionView, Color>, value: int) -> bool {
    forall|c: Color| palette.values().contains(c) ==> c.magnitude() != value
}

/// Whether pixels are found for the magnitude `value` whatever is drawn,
/// with up to `depth` nested detours: `value` fits in one pixel, and either
/// every color of that magnitude is free, or a detour is left and pixels are
/// as surely found for `value + 380` and for 380.
pub open spec fn sure(value: int, palette: Map<InstructionView, Color>, depth: nat) -> bool
    decreases depth,
{
    &&& 0 <= value <= MAX_MAGNITUDE
    &&& {
        ||| unclaimed(palette, value)
        ||| {
            &&& depth > 0
            &&& sure(value + EASY_NUMBER, palette, (depth - 1) as nat)
            &&& sure(EASY_NUMBER as int, palette, (depth - 1) as nat)
        }
    }
}

/// Whether `r` is a fair answer to the request for one free color of magnitude
/// `value`.
///
/// A color that is handed out has the magnitude asked for and is not in the
/// palette; where colors are not drawn at random it is the greedy one. A
/// magnitude outside 0..=765 is refused as out of range, and no other is.
/// The request is given up as exhausted only where at least one color of that
/// magnitude is taken, and, without randomness, exactly where the greedy one
/// is.
pub open spec fn allocated(
    r: Result<Color, AllocationError>,
    value: int,
    palette: Map<InstructionView, Color>,
    random: bool,
) -> bool {
    match r {
        Ok(c) => {
            &&& 0 <= value <= MAX_MAGNITUDE
            &&& c.magnitude() == value
            &&& !palette.values().contains(c)
            &&& !random ==> c == Color::greedy(value)
        },
        Err(AllocationError::OutOfRange) => value < 0 || value > MAX_MAGNITUDE,
        Err(AllocationError::Exhausted) => {
            &&& 0 <= value <= MAX_MAGNITUDE
            &&& !unclaimed(palette, value)
            &&& !random ==> palette.values().contains(Color::greedy(value))
        },
    }
}

/// The pixels that stand for the magnitude `value` where nothing is left to
/// chance, with up to `depth` nested detours.
///
/// The greedy color is used if it is free. Otherwise `value` is drawn as
/// `(value + 380) - 380`: the pixels of `value + 380`, those of 380, and the
/// subtraction.
pub open spec fn fixed_literal(
    value: int,
    palette: Map<InstructionView, Color>,
    depth: nat,
) -> Result<Seq<Color>, AllocationError>
    decreases depth,
{
    if value < 0 || value > MAX_MAGNITUDE {
        Err(AllocationError::OutOfRange)
    } else if !palette.values().contains(Color::greedy(value)) {
        Ok(seq![Color::greedy(value)])
    } else if depth == 0 {
        Err(AllocationError::Exhausted)
    } else {
        match fixed_literal(value + EASY_NUMBER, palette, (depth - 1) as nat) {
            Err(e) => Err(e),
            Ok(high) => match fixed_literal(EASY_NUMBER as int, palette, (depth - 1) as nat) {
                Err(e) => Err(e),
                Ok(low) => Ok(high + low + seq![color_in(palette, InstructionView::Sub)]),
            },
        }
    }
}

/// Whether `pixels` stand for the magnitude `value`, with at most `depth`
/// nested detours: one free pixel of that magnitude, or the pixels of
/// `value + 380`, those of 380, and the subtraction.
pub open spec fn is_literal(
    pixels: Seq<Color>,
    value: int,
    palette: Map<InstructionView, Color>,
    depth: nat,
) -> bool
    decreases depth,
{
    ||| {
        &&& pixels.len() == 1
        &&& pixels[0].magnitude() == value
        &&& !palette.values().contains(pixels[0])
    }
    ||| {
        &&& depth > 0
        &&& pixels.len() > 0
        &&& pixels.last() == color_in(palette, InstructionView::Sub)
        &&& exists|cut: int|
            {
                &&& 0 <= cut < pixels.len()
                &&& is_literal(
                    #[trigger] pixels.subrange(0, cut),
                    value + EASY_NUMBER,
                    palette,
                    (depth - 1) as nat,
                )
                &&& is_literal(
                    pixels.subrange(cut, pixels.len() - 1),
                    EASY_NUMBER as int,
                    palette,
                    (depth - 1) as nat,
                )
            }
    }
}

/// The groups of the bits `bits`, scanned from bit `shift` upward: each group
/// starts at a set bit, holds the nine bits from there on, and is given with
/// the number of the bit it starts at.
pub open spec fn groups(bits: int, shift: int) -> Seq<(int, int)>
    decreases bits,
{
    if bits <= 0 {
        Seq::empty()
    } else if bits % 2 == 1 {
        seq![(bits % 512, shift)] + groups(bits / 512, shift + 9)
    } else {
        groups(bits / 2, shift + 1)
    }
}

/// What comes behind the pixels of a group: the shift that puts it in its
/// place, unless it starts at bit 0, and the sum with what came before, unless
/// it is the first group.
pub open spec fn placing(palette: Map<InstructionView, Color>, shifted: bool, first: bool) -> Seq<
    Color,
> {
    (if shifted {
        seq![color_in(palette, InstructionView::Lshift)]
    } else {
        Seq::empty()
    }) + (if first {
        Seq::empty()
    } else {
        seq![color_in(palette, InstructionView::Sum)]
    })
}

/// The pixels of one group where nothing is left to chance: the nine bits,
/// then, unless the group starts at bit 0, the number of its first bit and
/// the shift, then the sum unless the group is the first.
pub open spec fn fixed_term(
    group: (int, int),
    first: bool,
    palette: Map<InstructionView, Color>,
    depth: nat,
) -> Result<Seq<Color>, AllocationError> {
    match fixed_literal(group.0, palette, depth) {
        Err(e) => Err(e),
        Ok(residue) => if group.1 == 0 {
            Ok(residue + placing(palette, false, first))
        } else {
            match fixed_literal(group.1, palette, depth) {
                Err(e) => Err(e),
                Ok(shift) => Ok(residue + shift + placing(palette, true, first)),
            }
        },
    }
}

/// Whether `pixels` stand for one group.
pub open spec fn is_term(
    pixels: Seq<Color>,
    group: (int, int),
    first: bool,
    palette: Map<InstructionView, Color>,
    depth: nat,
) -> bool {
    let tail = placing(palette, group.1 != 0, first);
    let end = pixels.len() - tail.len();
    &&& end >= 0
    &&& pixels.subrange(end, pixels.len() as int) == tail
    &&& if group.1 == 0 {
        is_literal(pixels.subrange(0, end), group.0, palette, depth)
    } else {
        exists|cut: int|
            {
                &&& 0 <= cut <= end
                &&& is_literal(#[trigger] pixels.subrange(0, cut), group.0, palette, depth)
                &&& is_literal(pixels.subrange(cut, end), group.1, palette, depth)
            }
    }
}

/// The pixels of a run of groups where nothing is left to chance: group after
/// group, the lowest first.
pub open spec fn fixed_terms(
    groups: Seq<(int, int)>,
    palette: Map<InstructionView, Color>,
    depth: nat,
) -> Result<Seq<Color>, AllocationError>
    decreases groups.len(),
{
    if groups.len() == 0 {
        Ok(Seq::empty())
    } else {
        match fixed_terms(groups.drop_last(), palette, depth) {
            Err(e) => Err(e),
            Ok(before) => match fixed_term(groups.last(), groups.len() == 1, palette, depth) {
                Err(e) => Err(e),
                Ok(term) => Ok(before + term),
            },
        }
    }
}

/// Whether `pixels` stand for a run of groups.
pub open spec fn is_terms(
    pixels: Seq<Color>,
    groups: Seq<(int, int)>,
    palette: Map<InstructionView, Color>,
    depth: nat,
) -> bool
    decreases groups.len(),
{
    if groups.len() == 0 {
        pixels.len() == 0
    } else {
        exists|cut: int|
            {
                &&& 0 <= cut <= pixels.len()
                &&& is_terms(#[trigger] pixels.subrange(0, cut), groups.drop_last(), palette, depth)
                &&& is_term(
                    pixels.subrange(cut, pixels.len() as int),
                    groups.last(),
                    groups.len() == 1,
                    palette,
                    depth,
                )
            }
    }
}

/// The pixels of the 32-bit integer `n` where nothing is left to chance: one
/// literal where its bits, read as an unsigned number, are at most 750, and
/// else its groups.
pub open spec fn fixed_int(n: int, palette: Map<InstructionView, Color>, depth: nat) -> Result<
    Seq<Color>,
    AllocationError,
> {
    if bit_pattern(n) <= INSTANT_NUMBER {
        fixed_literal(bit_pattern(n), palette, depth)
    } else {
        fixed_terms(groups(bit_pattern(n), 0), palette, depth)
    }
}

/// Whether `pixels` stand for the 32-bit integer `n`.
pub open spec fn is_int(
    pixels: Seq<Color>,
    n: int,
    palette: Map<InstructionView, Color>,
    depth: nat,
) -> bool {
    if bit_pattern(n) <= INSTANT_NUMBER {
        is_literal(pixels, bit_pattern(n), palette, depth)
    } else {
        is_terms(pixels, groups(bit_pattern(n), 0), palette, depth)
    }
}

/// The character before the last of `text`, or NUL where `text` has only
/// one: what the machine has on top of its stack when the last character is
/// to be pushed.
pub open spec fn previous(text: Seq<char>) -> char {
    if text.len() >= 2 {
        text[text.len() - 2]
    } else {
        '\0'
    }
}

/// The pixels of `text` where nothing is left to chance: the integer 0 as the
/// mark of the end, then character by character the integer that is its code
/// point, or, for a character that repeats the one before it, the
/// duplication alone.
pub open spec fn fixed_text(text: Seq<char>, palette: Map<InstructionView, Color>, depth: nat)
    -> Result<Seq<Color>, AllocationError>
    decreases text.len(),
{
    if text.len() == 0 {
        fixed_int(0, palette, depth)
    } else {
        match fixed_text(text.drop_last(), palette, depth) {
            Err(e) => Err(e),
            Ok(before) => if text.last() == previous(text) {
                Ok(before + seq![color_in(palette, InstructionView::Dup)])
            } else {
                match fixed_int(text.last() as int, palette, depth) {
                    Err(e) => Err(e),
                    Ok(pixels) => Ok(before + pixels),
                }
            },
        }
    }
}

/// Whether `pixels` stand for `text`.
pub open spec fn is_text(
    pixels: Seq<Color>,
    text: Seq<char>,
    palette: Map<InstructionView, Color>,
    depth: nat,
) -> bool
    decreases text.len(),
{
    if text.len() == 0 {
        is_int(pixels, 0, palette, depth)
    } else {
        exists|cut: int|
            {
                &&& 0 <= cut <= pixels.len()
                &&& is_text(#[trigger] pixels.subrange(0, cut), text.drop_last(), palette, depth)
                &&& if text.last() == previous(text) {
                    pixels.subrange(cut, pixels.len() as int) == seq![
                        color_in(palette, InstructionView::Dup),
                    ]
                } else {
                    is_int(
                        pixels.subrange(cut, pixels.len() as int),
                        text.last() as int,
                        palette,
                        depth,
                    )
                }
            }
    }
}

/// Whether what was computed is what is fixed where nothing is left to
/// chance.
pub open spec fn agrees(
    r: Result<Vec<Color>, AllocationError>,
    fixed: Result<Seq<Color>, AllocationError>,
) -> bool {
    match r {
        Ok(pixels) => fixed == Ok::<Seq<Color>, AllocationError>(pixels@),
        Err(e) => fixed == Err::<Seq<Color>, AllocationError>(e),
    }
}

/// Whether `k` is one of `values`.
pub fn color_contains(k: Color, values: &Vec<Color>) -> (found: bool)
    ensures
        found == values@.contains(k),
{
    let mut i: usize = 0;
    while i < values.len()
        invariant
            i <= values.len(),
            forall|j: int| 0 <= j < i ==> values@[j] != k,
        decreases values.len() - i,
    {
        if values[i] == k {
            return true;
        }
        i = i + 1;
    }
    false
}

/// One free color of magnitude `val`.
///
/// Where `conf.is_random` is off the greedy color is the only one tried.
/// Where it is on, up to 100 colors are drawn and the first free one is taken.
pub fn allocate(val: i32, conf: &Params) -> (r: Result<Color, AllocationError>)
    ensures
        allocated(r, val as int, conf.custom_colors@, conf.is_random),
        unclaimed(conf.custom_colors@, val as int) && 0 <= val <= MAX_MAGNITUDE ==> r is Ok,
{
    if val < 0 || val > MAX_MAGNITUDE {
        return Err(AllocationError::OutOfRange);
    }
    let taken = conf.custom_colors.values();
    assert(forall|c: Color| taken@.contains(c) <==> conf.custom_colors@.values().contains(c)) by {
        assert(forall|c: Color| taken@.contains(c) <==> taken@.to_set().contains(c));
    }
    if !conf.is_random {
        let k = Color::not_random(val);
        if color_contains(k, &taken) {
            return Err(AllocationError::Exhausted);
        }
        return Ok(k);
    }
    let mut tries: u32 = 0;
    let ghost mut witness = Color { r: 0, g: 0, b: 0 };
    while tries < RETRY_RANDOM
        invariant
            0 <= val <= MAX_MAGNITUDE,
            conf.is_random,
            forall|c: Color| taken@.contains(c) <==> conf.custom_colors@.values().contains(c),
            tries > 0 ==> conf.custom_colors@.values().contains(witness) && witness.magnitude()
                == val,
        decreases RETRY_RANDOM - tries,
    {
        let k = Color::random(val);
        if !color_contains(k, &taken) {
            return Ok(k);
        }
        proof {
            witness = k;
        }
        tries = tries + 1;
    }
    Err(AllocationError::Exhausted)
}

/// The pixels of `value + 380`, those of 380 and the subtraction stand for
/// `value`.
pub proof fn lemma_detour(
    high: Seq<Color>,
    low: Seq<Color>,
    value: int,
    palette: Map<InstructionView, Color>,
    depth: nat,
)
    requires
        depth > 0,
        is_literal(high, value + EASY_NUMBER, palette, (depth - 1) as nat),
        is_literal(low, EASY_NUMBER as int, palette, (depth - 1) as nat),
    ensures
        is_literal(
            high + low + seq![color_in(palette, InstructionView::Sub)],
            value,
            palette,
            depth,
        ),
{
    let pixels = high + low + seq![color_in(palette, InstructionView::Sub)];
    assert(pixels.subrange(0, high.len() as int) =~= high);
    assert(pixels.subrange(high.len() as int, pixels.len() - 1) =~= low);
}

/// The pixels of the magnitude `val`, with up to `depth` nested detours.
fn literal(val: i32, conf: &Params, depth: u32) -> (r: Result<Vec<Color>, AllocationError>)
    ensures
        r matches Ok(pixels) ==> is_literal(pixels@, val as int, conf.custom_colors@, depth as nat),
        !conf.is_random ==> agrees(r, fixed_literal(val as int, conf.custom_colors@, depth as nat)),
        val < 0 || val > MAX_MAGNITUDE ==> r == Err::<Vec<Color>, AllocationError>(
            AllocationError::OutOfRange,
        ),
        0 <= val <= MAX_MAGNITUDE && unclaimed(conf.custom_colors@, val as int) ==> (r matches Ok(
            pixels,
        ) && is_literal(pixels@, val as int, conf.custom_colors@, 0)),
        sure(val as int, conf.custom_colors@, depth as nat) ==> r is Ok,
    decreases depth,
{
    match allocate(val, conf) {
        Ok(color) => {
            let mut pixels: Vec<Color> = Vec::new();
            pixels.push(color);
            assert(pixels@ =~= seq![color]);
            Ok(pixels)
        },
        Err(AllocationError::OutOfRange) => Err(AllocationError::OutOfRange),
        Err(AllocationError::Exhausted) => {
            if depth == 0 {
                return Err(AllocationError::Exhausted);
            }
            let mut pixels = match literal(val + EASY_NUMBER, conf, depth - 1) {
                Err(e) => {
                    return Err(e);
                },
                Ok(high) => high,
            };
            let mut low = match literal(EASY_NUMBER, conf, depth - 1) {
                Err(e) => {
                    return Err(e);
                },
                Ok(low) => low,
            };
            let ghost high = pixels@;
            let ghost rest = low@;
            pixels.append(&mut low);
            pixels.push(conf.custom_colors.color_of(&Instruction::Sub));
            assert(pixels@ =~= high + rest + seq![
                color_in(conf.custom_colors@, InstructionView::Sub),
            ]);
            proof {
                lemma_detour(high, rest, val as int, conf.custom_colors@, depth as nat);
            }
            Ok(pixels)
        },
    }
}

/// The pixels that stand for the magnitude `val`.
///
/// One pixel of that magnitude, in a color that the palette has not taken.
/// Where no such color is found, `val` is drawn as `(val + 380) - 380`, each
/// of the two in the same way, up to eight detours deep. A magnitude outside
/// 0..=765 is refused wherever it turns up, and so is one for which no color
/// is found at the end of the last detour.
///
/// A magnitude that no color of the palette has is always drawn as one
/// pixel, and no detour is given up before it was tried: pixels are found
/// wherever `sure` says so.
pub fn generate_exact_color(val: i32, conf: &Params) -> (r: Result<Vec<Color>, AllocationError>)
    ensures
        r matches Ok(pixels) ==> is_literal(
            pixels@,
            val as int,
            conf.custom_colors@,
            MAX_DETOURS as nat,
        ),
        !conf.is_random ==> agrees(
            r,
            fixed_literal(val as int, conf.custom_colors@, MAX_DETOURS as nat),
        ),
        val < 0 || val > MAX_MAGNITUDE ==> r == Err::<Vec<Color>, AllocationError>(
            AllocationError::OutOfRange,
        ),
        0 <= val <= MAX_MAGNITUDE && unclaimed(conf.custom_colors@, val as int) ==> (r matches Ok(
            pixels,
        ) && is_literal(pixels@, val as int, conf.custom_colors@, 0)),
        sure(val as int, conf.custom_colors@, MAX_DETOURS as nat) ==> r is Ok,
        r matches Ok(pixels) ==> all_safe(pixels@, conf.custom_colors@),
        r matches Ok(pixels) ==> readable(conf.custom_colors@) ==> pushes(
            pixels@,
            seq![val as int],
            conf.custom_colors@,
        ),
{
    let r = literal(val, conf, MAX_DETOURS);
    proof {
        if r is Ok {
            lemma_literal_safe(r->Ok_0@, val as int, conf.custom_colors@, MAX_DETOURS as nat);
            if readable(conf.custom_colors@) {
                lemma_literal_meaning(
                    r->Ok_0@,
                    val as int,
                    conf.custom_colors@,
                    MAX_DETOURS as nat,
                );
            }
        }
    }
    r
}

/// Whether every magnitude that the groups call for is unclaimed, so that
/// their pixels are found whatever is drawn.
pub open spec fn groups_free(groups: Seq<(int, int)>, palette: Map<InstructionView, Color>)
    -> bool {
    forall|k: int|
        0 <= k < groups.len() ==> unclaimed(palette, (#[trigger] groups[k]).0) && (groups[k].1 != 0
            ==> unclaimed(palette, groups[k].1))
}

/// Whether every magnitude that the integer `n` calls for is unclaimed.
pub open spec fn int_free(n: int, palette: Map<InstructionView, Color>) -> bool {
    if bit_pattern(n) <= INSTANT_NUMBER {
        unclaimed(palette, bit_pattern(n))
    } else {
        groups_free(groups(bit_pattern(n), 0), palette)
    }
}

/// Whether every magnitude that `text` calls for is unclaimed.
pub open spec fn text_free(text: Seq<char>, palette: Map<InstructionView, Color>) -> bool {
    &&& int_free(0, palette)
    &&& forall|k: int| 0 <= k < text.len() ==> int_free(#[trigger] text[k] as int, palette)
}

/// Whether pixels are surely found for every magnitude that the groups call
/// for.
pub open spec fn groups_sure(
    groups: Seq<(int, int)>,
    palette: Map<InstructionView, Color>,
    depth: nat,
) -> bool {
    forall|k: int|
        0 <= k < groups.len() ==> sure((#[trigger] groups[k]).0, palette, depth) && (groups[k].1
            != 0 ==> sure(groups[k].1, palette, depth))
}

/// Whether pixels are surely found for the integer `n`, whatever is drawn.
pub open spec fn int_sure(n: int, palette: Map<InstructionView, Color>, depth: nat) -> bool {
    if bit_pattern(n) <= INSTANT_NUMBER {
        sure(bit_pattern(n), palette, depth)
    } else {
        groups_sure(groups(bit_pattern(n), 0), palette, depth)
    }
}

/// Whether pixels are surely found for `text`, whatever is drawn.
pub open spec fn text_sure(text: Seq<char>, palette: Map<InstructionView, Color>, depth: nat)
    -> bool {
    &&& int_sure(0, palette, depth)
    &&& forall|k: int| 0 <= k < text.len() ==> int_sure(#[trigger] text[k] as int, palette, depth)
}

/// The pixels of the nine bits of a group, then those of the number of its
/// first bit, then what places the group, stand for the group.
pub proof fn lemma_term(
    residue: Seq<Color>,
    shift: Seq<Color>,
    group: (int, int),
    first: bool,
    palette: Map<InstructionView, Color>,
    depth: nat,
)
    requires
        is_literal(residue, group.0, palette, depth),
        group.1 == 0 ==> shift.len() == 0,
        group.1 != 0 ==> is_literal(shift, group.1, palette, depth),
    ensures
        is_term(
            residue + shift + placing(palette, group.1 != 0, first),
            group,
            first,
            palette,
            depth,
        ),
{
    let tail = placing(palette, group.1 != 0, first);
    let pixels = residue + shift + tail;
    let end = pixels.len() - tail.len();
    let cut = residue.len() as int;
    assert(pixels.subrange(end, pixels.len() as int) =~= tail);
    assert(pixels.subrange(0, cut) =~= residue);
    assert(pixels.subrange(cut, end) =~= shift);
    if group.1 == 0 {
        assert(pixels.subrange(0, end) =~= residue);
    }
}

/// The pixels of a run of groups followed by those of the next group stand
/// for the longer run.
pub proof fn lemma_terms_push(
    before: Seq<Color>,
    term: Seq<Color>,
    groups: Seq<(int, int)>,
    palette: Map<InstructionView, Color>,
    depth: nat,
)
    requires
        groups.len() > 0,
        is_terms(before, groups.drop_last(), palette, depth),
        is_term(term, groups.last(), groups.len() == 1, palette, depth),
    ensures
        is_terms(before + term, groups, palette, depth),
{
    let pixels = before + term;
    assert(pixels.subrange(0, before.len() as int) =~= before);
    assert(pixels.subrange(before.len() as int, pixels.len() as int) =~= term);
}

/// Once a group cannot be drawn, no later group changes that.
pub proof fn lemma_terms_error_stays(
    groups: Seq<(int, int)>,
    k: int,
    palette: Map<InstructionView, Color>,
    depth: nat,
)
    requires
        0 <= k <= groups.len(),
        fixed_terms(groups.take(k), palette, depth) is Err,
    ensures
        fixed_terms(groups, palette, depth) == fixed_terms(groups.take(k), palette, depth),
    decreases groups.len() - k,
{
    if k < groups.len() {
        assert(groups.take(k + 1).drop_last() =~= groups.take(k));
        lemma_terms_error_stays(groups, k + 1, palette, depth);
    } else {
        assert(groups.take(k) =~= groups);
    }
}

/// The pixels of one group: its nine bits, the number of its first bit and
/// the shift unless that is bit 0, and the sum unless the group is the first.
fn term_to_colors(residue: u32, shift: u32, first: bool, conf: &Params) -> (r: Result<
    Vec<Color>,
    AllocationError,
>)
    requires
        residue <= BIT_MASK,
        shift < 32,
    ensures
        r matches Ok(pixels) ==> is_term(
            pixels@,
            (residue as int, shift as int),
            first,
            conf.custom_colors@,
            MAX_DETOURS as nat,
        ),
        !conf.is_random ==> agrees(
            r,
            fixed_term(
                (residue as int, shift as int),
                first,
                conf.custom_colors@,
                MAX_DETOURS as nat,
            ),
        ),
        unclaimed(conf.custom_colors@, residue as int) && (shift != 0 ==> unclaimed(
            conf.custom_colors@,
            shift as int,
        )) ==> (r matches Ok(pixels) && is_term(
            pixels@,
            (residue as int, shift as int),
            first,
            conf.custom_colors@,
            0,
        )),
        sure(residue as int, conf.custom_colors@, MAX_DETOURS as nat) && (shift != 0 ==> sure(
            shift as int,
            conf.custom_colors@,
            MAX_DETOURS as nat,
        )) ==> r is Ok,
{
    let mut pixels = match generate_exact_color(residue as i32, conf) {
        Err(e) => {
            return Err(e);
        },
        Ok(pixels) => pixels,
    };
    let ghost digits = pixels@;
    let ghost mut place = Seq::<Color>::empty();
    if shift != 0 {
        let mut amount = match generate_exact_color(shift as i32, conf) {
            Err(e) => {
                return Err(e);
            },
            Ok(amount) => amount,
        };
        proof {
            place = amount@;
        }
        pixels.append(&mut amount);
        pixels.push(conf.custom_colors.color_of(&Instruction::Lshift));
    }
    if !first {
        pixels.push(conf.custom_colors.color_of(&Instruction::Sum));
    }
    proof {
        let group = (residue as int, shift as int);
        assert(pixels@ =~= digits + place + placing(conf.custom_colors@, shift != 0, first));
        lemma_term(digits, place, group, first, conf.custom_colors@, MAX_DETOURS as nat);
        if !conf.is_random {
            assert(digits + Seq::<Color>::empty() =~= digits);
        }
        if unclaimed(conf.custom_colors@, residue as int) && (shift != 0 ==> unclaimed(
            conf.custom_colors@,
            shift as int,
        )) {
            lemma_term(digits, place, group, first, conf.custom_colors@, 0);
        }
    }
    Ok(pixels)
}

/// The pixels that stand for a 32-bit integer.
///
/// An integer whose bits, read as an unsigned number, are at most 750 is one
/// literal. Any other is cut into groups of nine bits, each starting at a set
/// bit; every group is drawn as a literal, shifted to its place, and added to
/// those before it.
pub fn int_to_colors(number: i32, conf: &Params) -> (r: Result<Vec<Color>, AllocationError>)
    ensures
        r matches Ok(pixels) ==> is_int(
            pixels@,
            number as int,
            conf.custom_colors@,
            MAX_DETOURS as nat,
        ),
        !conf.is_random ==> agrees(
            r,
            fixed_int(number as int, conf.custom_colors@, MAX_DETOURS as nat),
        ),
        int_free(number as int, conf.custom_colors@) ==> (r matches Ok(pixels) && is_int(
            pixels@,
            number as int,
            conf.custom_colors@,
            0,
        )),
        int_sure(number as int, conf.custom_colors@, MAX_DETOURS as nat) ==> r is Ok,
        r matches Ok(pixels) ==> all_safe(pixels@, conf.custom_colors@),
        r matches Ok(pixels) ==> readable(conf.custom_colors@) ==> pushes(
            pixels@,
            seq![bit_pattern(number as int)],
            conf.custom_colors@,
        ),
{
    let bits: u32 = bits_of(number);
    if bits <= INSTANT_NUMBER {
        return generate_exact_color(bits as i32, conf);
    }
    let ghost all = groups(bits as int, 0);
    let ghost mut done = Seq::<(int, int)>::empty();
    let mut colors: Vec<Color> = Vec::new();
    let mut val: u32 = bits;
    let mut first = true;
    let mut i: u32 = 0;
    assert(bits >> 0u32 == bits) by (bit_vector);
    while val != 0
        invariant
            bits > INSTANT_NUMBER,
            bits == bit_pattern(number as int),
            i <= 40,
            i < 32 ==> val == bits >> i,
            i >= 32 ==> val == 0,
            all == groups(bits as int, 0),
            all == done + groups(val as int, i as int),
            first == (done.len() == 0),
            is_terms(colors@, done, conf.custom_colors@, MAX_DETOURS as nat),
            int_free(number as int, conf.custom_colors@) ==> is_terms(
                colors@,
                done,
                conf.custom_colors@,
                0,
            ),
            !conf.is_random ==> fixed_terms(done, conf.custom_colors@, MAX_DETOURS as nat)
                == Ok::<Seq<Color>, AllocationError>(colors@),
        decreases val,
    {
        assert(i < 32);
        if val & 1 == 1 {
            let residue = val & BIT_MASK;
            assert(val & 1 == 1 ==> val % 2 == 1) by (bit_vector);
            assert(val & 511 == val % 512 && val & 511 <= 511) by (bit_vector);
            assert(val >> 9 == val / 512) by (bit_vector);
            assert(val != 0 ==> val >> 9 < val) by (bit_vector);
            assert(i < 32 && val == bits >> i ==> (i + 9 < 32 ==> val >> 9 == bits >> ((i + 9) as u32))
                && (i + 9 >= 32 ==> val >> 9 == 0)) by (bit_vector);
            let ghost group = (residue as int, i as int);
            let ghost next = done.push(group);
            proof {
                assert(groups(val as int, i as int) =~= seq![group] + groups(
                    val as int / 512,
                    i as int + 9,
                ));
                assert(all =~= next + groups(val as int / 512, i as int + 9));
                assert(next.drop_last() =~= done);
                assert(all.take(next.len() as int) =~= next);
            }
            let mut term = match term_to_colors(residue, i, first, conf) {
                Err(e) => {
                    proof {
                        if !conf.is_random {
                            lemma_terms_error_stays(
                                all,
                                next.len() as int,
                                conf.custom_colors@,
                                MAX_DETOURS as nat,
                            );
                        }
                        assert(all[done.len() as int] == group);
                    }
                    return Err(e);
                },
                Ok(term) => term,
            };
            proof {
                lemma_terms_push(colors@, term@, next, conf.custom_colors@, MAX_DETOURS as nat);
                if int_free(number as int, conf.custom_colors@) {
                    assert(all[done.len() as int] == group);
                    lemma_terms_push(colors@, term@, next, conf.custom_colors@, 0);
                }
            }
            colors.append(&mut term);
            first = false;
            proof {
                done = next;
            }
            val = val >> BIT_PER_COLOR;
            i = i + BIT_PER_COLOR;
        } else {
            assert(val & 1 != 1 ==> val % 2 == 0) by (bit_vector);
            assert(val >> 1 == val / 2) by (bit_vector);
            assert(val != 0 ==> val >> 1 < val) by (bit_vector);
            assert(i < 32 && val == bits >> i ==> (i + 1 < 32 ==> val >> 1 == bits >> ((i + 1) as u32))
                && (i + 1 >= 32 ==> val >> 1 == 0)) by (bit_vector);
            val = val >> 1;
            i = i + 1;
        }
    }
    assert(done + Seq::<(int, int)>::empty() =~= done);
    proof {
        lemma_int_safe(colors@, number as int, conf.custom_colors@, MAX_DETOURS as nat);
        if readable(conf.custom_colors@) {
            lemma_int_meaning(
                colors@,
                number as int,
                conf.custom_colors@,
                MAX_DETOURS as nat,
            );
        }
    }
    Ok(colors)
}

/// The pixels that stand for the code point of `ch`.
pub fn char_to_colors(ch: char, conf: &Params) -> (r: Result<Vec<Color>, AllocationError>)
    ensures
        r matches Ok(pixels) ==> is_int(
            pixels@,
            ch as int,
            conf.custom_colors@,
            MAX_DETOURS as nat,
        ),
        !conf.is_random ==> agrees(
            r,
            fixed_int(ch as int, conf.custom_colors@, MAX_DETOURS as nat),
        ),
        int_free(ch as int, conf.custom_colors@) ==> (r matches Ok(pixels) && is_int(
            pixels@,
            ch as int,
            conf.custom_colors@,
            0,
        )),
        int_sure(ch as int, conf.custom_colors@, MAX_DETOURS as nat) ==> r is Ok,
        r matches Ok(pixels) ==> all_safe(pixels@, conf.custom_colors@),
        r matches Ok(pixels) ==> readable(conf.custom_colors@) ==> pushes(
            pixels@,
            seq![ch as int],
            conf.custom_colors@,
        ),
{
    int_to_colors(code_point(ch) as i32, conf)
}

/// The pixels of a text followed by those of its next character stand for
/// the longer text.
pub proof fn lemma_text_push(
    before: Seq<Color>,
    last: Seq<Color>,
    text: Seq<char>,
    palette: Map<InstructionView, Color>,
    depth: nat,
)
    requires
        text.len() > 0,
        is_text(before, text.drop_last(), palette, depth),
        if text.last() == previous(text) {
            last == seq![color_in(palette, InstructionView::Dup)]
        } else {
            is_int(last, text.last() as int, palette, depth)
        },
    ensures
        is_text(before + last, text, palette, depth),
{
    let pixels = before + last;
    assert(pixels.subrange(0, before.len() as int) =~= before);
    assert(pixels.subrange(before.len() as int, pixels.len() as int) =~= last);
}

/// Once a character cannot be drawn, no later character changes that.
pub proof fn lemma_text_error_stays(
    text: Seq<char>,
    k: int,
    palette: Map<InstructionView, Color>,
    depth: nat,
)
    requires
        0 <= k <= text.len(),
        fixed_text(text.take(k), palette, depth) is Err,
    ensures
        fixed_text(text, palette, depth) == fixed_text(text.take(k), palette, depth),
    decreases text.len() - k,
{
    if k < text.len() {
        assert(text.take(k + 1).drop_last() =~= text.take(k));
        lemma_text_error_stays(text, k + 1, palette, depth);
    } else {
        assert(text.take(k) =~= text);
    }
}

/// The pixels that stand for a text: pushed in order, they leave the code
/// points of its characters on the stack, above a 0 that marks the end.
///
/// A character that repeats the one before it costs one pixel, the
/// duplication; any other is drawn as the integer that is its code point.
pub fn string_to_colors(str: &str, conf: &Params) -> (r: Result<Vec<Color>, AllocationError>)
    ensures
        r matches Ok(pixels) ==> is_text(pixels@, str@, conf.custom_colors@, MAX_DETOURS as nat),
        !conf.is_random ==> agrees(r, fixed_text(str@, conf.custom_colors@, MAX_DETOURS as nat)),
        text_free(str@, conf.custom_colors@) ==> (r matches Ok(pixels) && is_text(
            pixels@,
            str@,
            conf.custom_colors@,
            0,
        )),
        text_sure(str@, conf.custom_colors@, MAX_DETOURS as nat) ==> r is Ok,
        r matches Ok(pixels) ==> all_safe(pixels@, conf.custom_colors@),
        r matches Ok(pixels) ==> readable(conf.custom_colors@) ==> pushes(
            pixels@,
            seq![0int] + codes(str@),
            conf.custom_colors@,
        ),
{
    let chars = chars_of(str);
    let ghost text = str@;
    assert(text.take(0) =~= Seq::<char>::empty());
    assert('\0' as int == 0);
    let mut colors = match char_to_colors('\0', conf) {
        Err(e) => {
            proof {
                if !conf.is_random {
                    lemma_text_error_stays(text, 0, conf.custom_colors@, MAX_DETOURS as nat);
                }
            }
            return Err(e);
        },
        Ok(colors) => colors,
    };
    let mut last_char = '\0';
    let mut i: usize = 0;
    while i < chars.len()
        invariant
            i <= chars.len(),
            chars@ == text,
            text == str@,
            last_char == if i == 0 {
                '\0'
            } else {
                text[i - 1]
            },
            is_text(colors@, text.take(i as int), conf.custom_colors@, MAX_DETOURS as nat),
            text_free(text, conf.custom_colors@) ==> is_text(
                colors@,
                text.take(i as int),
                conf.custom_colors@,
                0,
            ),
            !conf.is_random ==> fixed_text(
                text.take(i as int),
                conf.custom_colors@,
                MAX_DETOURS as nat,
            ) == Ok::<Seq<Color>, AllocationError>(colors@),
        decreases chars.len() - i,
    {
        let c = chars[i];
        let ghost longer = text.take(i + 1);
        assert(longer.drop_last() =~= text.take(i as int));
        assert(longer.last() == c);
        assert(previous(longer) == last_char);
        let ghost before = colors@;
        if c == last_char {
            colors.push(conf.custom_colors.color_of(&Instruction::Dup));
            proof {
                let last = seq![color_in(conf.custom_colors@, InstructionView::Dup)];
                assert(colors@ =~= before + last);
                lemma_text_push(before, last, longer, conf.custom_colors@, MAX_DETOURS as nat);
                if text_free(text, conf.custom_colors@) {
                    lemma_text_push(before, last, longer, conf.custom_colors@, 0);
                }
            }
        } else {
            let mut pixels = match char_to_colors(c, conf) {
                Err(e) => {
                    proof {
                        if !conf.is_random {
                            lemma_text_error_stays(
                                text,
                                i + 1,
                                conf.custom_colors@,
                                MAX_DETOURS as nat,
                            );
                        }
                    }
                    return Err(e);
                },
                Ok(pixels) => pixels,
            };
            proof {
                lemma_text_push(before, pixels@, longer, conf.custom_colors@, MAX_DETOURS as nat);
                if text_free(text, conf.custom_colors@) {
                    lemma_text_push(before, pixels@, longer, conf.custom_colors@, 0);
                }
            }
            colors.append(&mut pixels);
            last_char = c;
        }
        i = i + 1;
    }
    assert(text.take(i as int) =~= text);
    proof {
        lemma_text_safe(colors@, text, conf.custom_colors@, MAX_DETOURS as nat);
        if readable(conf.custom_colors@) {
            lemma_text_meaning(colors@, text, conf.custom_colors@, MAX_DETOURS as nat);
        }
    }
    Ok(colors)
}

/// The pixels of an instruction where nothing is left to chance, whatever
/// the palette gives it: a text or an integer compiled, a color as it is
/// written, and any other operation in its default color.
pub open spec fn fixed_drawing(
    op: InstructionView,
    palette: Map<InstructionView, Color>,
    depth: nat,
) -> Result<Seq<Color>, AllocationError> {
    match op {
        InstructionView::RawString(text) => fixed_text(text, palette, depth),
        InstructionView::RawInt(n) => fixed_int(n as int, palette, depth),
        InstructionView::RawColor(r, g, b) => Ok(seq![Color { r, g, b }]),
        _ => Ok(seq![Color::unpack(op.default_packed())]),
    }
}

/// Whether `pixels` stand for an instruction, whatever the palette gives it.
pub open spec fn is_drawing(
    pixels: Seq<Color>,
    op: InstructionView,
    palette: Map<InstructionView, Color>,
    depth: nat,
) -> bool {
    match op {
        InstructionView::RawString(text) => is_text(pixels, text, palette, depth),
        InstructionView::RawInt(n) => is_int(pixels, n as int, palette, depth),
        InstructionView::RawColor(r, g, b) => pixels == seq![Color { r, g, b }],
        _ => pixels == seq![Color::unpack(op.default_packed())],
    }
}

/// Whether the pixels of an instruction are found whatever is drawn.
pub open spec fn drawing_free(op: InstructionView, palette: Map<InstructionView, Color>) -> bool {
    match op {
        InstructionView::RawString(text) => text_free(text, palette),
        InstructionView::RawInt(n) => int_free(n as int, palette),
        _ => true,
    }
}

/// Whether the pixels of an instruction are surely found, whatever is drawn.
pub open spec fn drawing_sure(
    op: InstructionView,
    palette: Map<InstructionView, Color>,
    depth: nat,
) -> bool {
    match op {
        InstructionView::RawString(text) => text_sure(text, palette, depth),
        InstructionView::RawInt(n) => int_sure(n as int, palette, depth),
        _ => true,
    }
}

impl Instruction {
    /// The pixels of the instruction where the palette gives it no color of
    /// its own: a text or an integer is compiled into data pixels, a color is
    /// one pixel as written, and any other operation is one pixel in its
    /// default color.
    pub fn get_default_colors(&self, conf: &Params) -> (r: Result<Vec<Color>, AllocationError>)
        ensures
            r matches Ok(pixels) ==> is_drawing(
                pixels@,
                self@,
                conf.custom_colors@,
                MAX_DETOURS as nat,
            ),
            !conf.is_random || !(self@ is RawString || self@ is RawInt) ==> agrees(
                r,
                fixed_drawing(self@, conf.custom_colors@, MAX_DETOURS as nat),
            ),
            drawing_free(self@, conf.custom_colors@) ==> (r matches Ok(pixels) && is_drawing(
                pixels@,
                self@,
                conf.custom_colors@,
                0,
            )),
            drawing_sure(self@, conf.custom_colors@, MAX_DETOURS as nat) ==> r is Ok,
            (self@ is RawString || self@ is RawInt) ==> (r matches Ok(pixels) ==> all_safe(
                pixels@,
                conf.custom_colors@,
            )),
    {
        match self {
            Instruction::RawString(text) => string_to_colors(text.as_str(), conf),
            Instruction::RawInt(value) => int_to_colors(*value, conf),
            Instruction::RawColor(r, g, b) => {
                let mut pixels: Vec<Color> = Vec::new();
                pixels.push(Color::new(*r, *g, *b));
                assert(pixels@ =~= seq![Color { r: *r, g: *g, b: *b }]);
                Ok(pixels)
            },
            _ => {
                let mut pixels: Vec<Color> = Vec::new();
                pixels.push(Color::from(crate::instructions::DEFAULT_COLORS[self.position()]));
                assert(pixels@ =~= seq![Color::unpack(self@.default_packed())]);
                Ok(pixels)
            },
        }
    }
}

/// The pixels of an instruction where nothing is left to chance: the color
/// that the palette gives it, or else what it is drawn as without one.
pub open spec fn fixed_pixels(op: InstructionView, palette: Map<InstructionView, Color>, depth: nat)
    -> Result<Seq<Color>, AllocationError> {
    if palette.contains_key(op) {
        Ok(seq![palette[op]])
    } else {
        fixed_drawing(op, palette, depth)
    }
}

/// Whether `pixels` stand for an instruction.
pub open spec fn is_pixels(
    pixels: Seq<Color>,
    op: InstructionView,
    palette: Map<InstructionView, Color>,
    depth: nat,
) -> bool {
    if palette.contains_key(op) {
        pixels == seq![palette[op]]
    } else {
        is_drawing(pixels, op, palette, depth)
    }
}

impl Params {
    /// The pixels of an instruction: the one color that the palette gives it,
    /// or, where it gives none, what the instruction is drawn as without.
    pub fn get_color(&self, instruction: Instruction) -> (r: Result<Vec<Color>, AllocationError>)
        ensures
            r matches Ok(pixels) ==> is_pixels(
                pixels@,
                instruction@,
                self.custom_colors@,
                MAX_DETOURS as nat,
            ),
            !self.is_random || !(instruction@ is RawString || instruction@ is RawInt) ==> agrees(
                r,
                fixed_pixels(instruction@, self.custom_colors@, MAX_DETOURS as nat),
            ),
            drawing_free(instruction@, self.custom_colors@) ==> (r matches Ok(pixels)
                && is_pixels(pixels@, instruction@, self.custom_colors@, 0)),
            drawing_sure(instruction@, self.custom_colors@, MAX_DETOURS as nat) ==> r is Ok,
            (instruction@ is RawString || instruction@ is RawInt) ==> (r matches Ok(pixels)
                ==> all_safe(pixels@, self.custom_colors@)),
    {
        match self.custom_colors.get(&instruction) {
            None => instruction.get_default_colors(self),
            Some(color) => {
                proof {
                    self.custom_colors.lemma_keys();
                    assert(self.custom_colors@.contains_key(instruction@));
                    assert(!instruction@.is_payload());
                }
                let mut pixels: Vec<Color> = Vec::new();
                pixels.push(color);
                assert(pixels@ =~= seq![color]);
                Ok(pixels)
            },
        }
    }
}

/// What is fixed for a magnitude stands for the magnitude.
pub proof fn lemma_fixed_literal(value: int, palette: Map<InstructionView, Color>, depth: nat)
    ensures
        fixed_literal(value, palette, depth) matches Ok(pixels) ==> is_literal(
            pixels,
            value,
            palette,
            depth,
        ),
    decreases depth,
{
    if fixed_literal(value, palette, depth) is Ok && palette.values().contains(
        Color::greedy(value),
    ) {
        let below = (depth - 1) as nat;
        lemma_fixed_literal(value + EASY_NUMBER, palette, below);
        lemma_fixed_literal(EASY_NUMBER as int, palette, below);
        lemma_detour(
            fixed_literal(value + EASY_NUMBER, palette, below)->Ok_0,
            fixed_literal(EASY_NUMBER as int, palette, below)->Ok_0,
            value,
            palette,
            depth,
        );
    }
}

/// What is fixed for a run of groups stands for the run.
pub proof fn lemma_fixed_terms(
    groups: Seq<(int, int)>,
    palette: Map<InstructionView, Color>,
    depth: nat,
)
    ensures
        fixed_terms(groups, palette, depth) matches Ok(pixels) ==> is_terms(
            pixels,
            groups,
            palette,
            depth,
        ),
    decreases groups.len(),
{
    if groups.len() > 0 && fixed_terms(groups, palette, depth) is Ok {
        let before = fixed_terms(groups.drop_last(), palette, depth)->Ok_0;
        let group = groups.last();
        let first = groups.len() == 1;
        lemma_fixed_terms(groups.drop_last(), palette, depth);
        lemma_fixed_literal(group.0, palette, depth);
        let residue = fixed_literal(group.0, palette, depth)->Ok_0;
        if group.1 == 0 {
            assert(residue + Seq::<Color>::empty() =~= residue);
            lemma_term(residue, Seq::empty(), group, first, palette, depth);
        } else {
            lemma_fixed_literal(group.1, palette, depth);
            let shift = fixed_literal(group.1, palette, depth)->Ok_0;
            lemma_term(residue, shift, group, first, palette, depth);
        }
        lemma_terms_push(
            before,
            fixed_term(group, first, palette, depth)->Ok_0,
            groups,
            palette,
            depth,
        );
    }
}

/// What is fixed for an integer stands for the integer.
pub proof fn lemma_fixed_int(n: int, palette: Map<InstructionView, Color>, depth: nat)
    ensures
        fixed_int(n, palette, depth) matches Ok(pixels) ==> is_int(pixels, n, palette, depth),
{
    if bit_pattern(n) <= INSTANT_NUMBER {
        lemma_fixed_literal(bit_pattern(n), palette, depth);
    } else {
        lemma_fixed_terms(groups(bit_pattern(n), 0), palette, depth);
    }
}

/// What is fixed for a text stands for the text.
pub proof fn lemma_fixed_text(text: Seq<char>, palette: Map<InstructionView, Color>, depth: nat)
    ensures
        fixed_text(text, palette, depth) matches Ok(pixels) ==> is_text(
            pixels,
            text,
            palette,
            depth,
        ),
    decreases text.len(),
{
    if text.len() == 0 {
        lemma_fixed_int(0, palette, depth);
    } else if fixed_text(text, palette, depth) is Ok {
        let before = fixed_text(text.drop_last(), palette, depth)->Ok_0;
        lemma_fixed_text(text.drop_last(), palette, depth);
        if text.last() == previous(text) {
            lemma_text_push(
                before,
                seq![color_in(palette, InstructionView::Dup)],
                text,
                palette,
                depth,
            );
        } else {
            lemma_fixed_int(text.last() as int, palette, depth);
            lemma_text_push(
                before,
                fixed_int(text.last() as int, palette, depth)->Ok_0,
                text,
                palette,
                depth,
            );
        }
    }
}

/// Where nothing is left to chance, compiling the same thing against the
/// same palette twice gives the same pixels, or the same refusal: both
/// results are what is fixed for it.
pub proof fn lemma_repeatable(
    first: Result<Vec<Color>, AllocationError>,
    second: Result<Vec<Color>, AllocationError>,
    fixed: Result<Seq<Color>, AllocationError>,
)
    requires
        agrees(first, fixed),
        agrees(second, fixed),
    ensures
        first matches Ok(a) ==> second matches Ok(b) && a@ == b@,
        first matches Err(e) ==> second == Err::<Vec<Color>, AllocationError>(e),
{
}

} // verus!
