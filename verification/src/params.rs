//! The settings of one run, and the palette among them: the color in which
//! each operation without operands is drawn.

use vstd::prelude::*;
use crate::color::Color;
use crate::error::ConfigError;
use crate::instructions::{
    find, lemma_catalog_round_trip, Instruction, InstructionView, CATALOG_SIZE, DEFAULT_COLORS,
    PLAIN_COUNT,
};
use crate::text::{color_of, parse_color, to_uppercase, uppercase};

verus! {

/// The colors given to operations.
///
/// As a value it is a map from operations to colors, whose keys are
/// operations without payload only: an instruction that carries a payload is
/// never drawn in a fixed color. Two operations may have the same color.
pub struct Palette {
    slots: Vec<Option<Color>>,
}

impl View for Palette {
    type V = Map<InstructionView, Color>;

    closed spec fn view(&self) -> Map<InstructionView, Color> {
        Map::new(
            |op: InstructionView|
                0 <= op.position() < self.slots.len() && !op.is_payload()
                    && self.slots[op.position()] is Some,
            |op: InstructionView| self.slots[op.position()]->0,
        )
    }
}

/// Whether every key of `palette` is an operation without payload.
pub open spec fn plain_keys(palette: Map<InstructionView, Color>) -> bool {
    forall|op: InstructionView| palette.contains_key(op) ==> !op.is_payload()
}

impl Palette {
    /// A palette never holds an operation that carries a payload.
    pub proof fn lemma_keys(self)
        ensures
            plain_keys(self@),
    {
    }

    /// The palette that gives no operation a color.
    pub fn new() -> (palette: Palette)
        ensures
            palette@ == Map::<InstructionView, Color>::empty(),
    {
        let palette = Palette { slots: Vec::new() };
        assert(palette@ =~= Map::<InstructionView, Color>::empty());
        palette
    }

    /// The color given to `op`, if one was given.
    pub fn get(&self, op: &Instruction) -> (color: Option<Color>)
        ensures
            color == if self@.contains_key(op@) {
                Some(self@[op@])
            } else {
                None
            },
    {
        let place = op.position();
        if place < PLAIN_COUNT && place < self.slots.len() {
            self.slots[place]
        } else {
            None
        }
    }

    /// Gives `op` the color `color`, in place of the one it had. An operation
    /// that carries a payload takes no color: the palette stays as it is and
    /// the answer is `false`.
    pub fn insert(&mut self, op: &Instruction, color: Color) -> (placed: bool)
        ensures
            placed == !op@.is_payload(),
            final(self)@ == if placed {
                old(self)@.insert(op@, color)
            } else {
                old(self)@
            },
    {
        let place = op.position();
        if place >= PLAIN_COUNT {
            return false;
        }
        while self.slots.len() < PLAIN_COUNT
            invariant
                self@ == old(self)@,
            decreases PLAIN_COUNT - self.slots.len(),
        {
            let ghost before = self@;
            self.slots.push(None);
            assert(self@ =~= before);
        }
        self.slots.set(place, Some(color));
        proof {
            lemma_places();
            assert(self@ =~= old(self)@.insert(op@, color));
        }
        true
    }

    /// The colors in use, one for each operation that has one, in the order
    /// of the catalog.
    pub fn values(&self) -> (colors: Vec<Color>)
        ensures
            colors@ == listed(self@, PLAIN_COUNT as int),
            colors@.to_set() == self@.values(),
    {
        let mut colors: Vec<Color> = Vec::new();
        let mut place: usize = 0;
        proof {
            lemma_places();
        }
        while place < PLAIN_COUNT
            invariant
                place <= PLAIN_COUNT,
                colors@ == listed(self@, place as int),
            decreases PLAIN_COUNT - place,
        {
            proof {
                lemma_places();
            }
            if place < self.slots.len() {
                match self.slots[place] {
                    Some(color) => {
                        colors.push(color);
                    },
                    None => {},
                }
            }
            place = place + 1;
        }
        proof {
            lemma_listed(self@, PLAIN_COUNT as int);
            self.lemma_keys();
            assert(colors@.to_set() =~= self@.values()) by {
                assert forall|c: Color| self@.values().contains(c) implies colors@.contains(c) by {
                    let op = choose|op: InstructionView| self@.contains_key(op) && self@[op] == c;
                    assert(InstructionView::at(op.position()) == op);
                }
            }
        }
        colors
    }
}

/// The colors that `palette` gives to the first `n` operations of the
/// catalog, in the order of the catalog.
pub open spec fn listed(palette: Map<InstructionView, Color>, n: int) -> Seq<Color>
    decreases n,
{
    if n <= 0 {
        Seq::empty()
    } else {
        let op = InstructionView::at(n - 1);
        if palette.contains_key(op) {
            listed(palette, n - 1).push(palette[op])
        } else {
            listed(palette, n - 1)
        }
    }
}

/// What is listed is what the palette gives to one of the operations
/// listed.
pub proof fn lemma_listed(palette: Map<InstructionView, Color>, n: int)
    ensures
        forall|c: Color|
            listed(palette, n).contains(c) <==> exists|i: int|
                0 <= i < n && palette.contains_key(#[trigger] InstructionView::at(i))
                    && palette[InstructionView::at(i)] == c,
    decreases n,
{
    if n > 0 {
        lemma_listed(palette, n - 1);
        let op = InstructionView::at(n - 1);
        let before = listed(palette, n - 1);
        assert forall|c: Color|
            listed(palette, n).contains(c) <==> exists|i: int|
                0 <= i < n && palette.contains_key(#[trigger] InstructionView::at(i))
                    && palette[InstructionView::at(i)] == c by {
            if listed(palette, n).contains(c) {
                if palette.contains_key(op) {
                    let k = choose|k: int|
                        0 <= k < before.push(palette[op]).len() && before.push(palette[op])[k] == c;
                    if k < before.len() {
                        assert(before[k] == c);
                        assert(before.contains(c));
                    } else {
                        assert(palette.contains_key(InstructionView::at(n - 1)));
                    }
                }
            }
            if exists|i: int|
                0 <= i < n && palette.contains_key(#[trigger] InstructionView::at(i))
                    && palette[InstructionView::at(i)] == c {
                let i = choose|i: int|
                    0 <= i < n && palette.contains_key(#[trigger] InstructionView::at(i))
                        && palette[InstructionView::at(i)] == c;
                if i < n - 1 {
                    assert(before.contains(c));
                    if palette.contains_key(op) {
                        let k = choose|k: int| 0 <= k < before.len() && before[k] == c;
                        assert(before.push(palette[op])[k] == c);
                    }
                } else {
                    assert(before.push(palette[op])[before.len() as int] == c);
                }
            }
        }
    }
}

impl Default for Palette {
    /// The palette that gives no operation a color.
    fn default() -> (palette: Palette)
        ensures
            palette@ == Map::<InstructionView, Color>::empty(),
    {
        Palette::new()
    }
}

/// Each place of the catalog holds the operation whose place it is, and each
/// operation without payload is the one at its place.
pub proof fn lemma_places()
    ensures
        forall|i: int|
            0 <= i < CATALOG_SIZE ==> (#[trigger] InstructionView::at(i)).position() == i,
        forall|op: InstructionView|
            !op.is_payload() ==> InstructionView::at(#[trigger] op.position()) == op,
        forall|op: InstructionView| 0 <= #[trigger] op.position() < CATALOG_SIZE,
{
}

/// The color that `op`, an operation without payload, is drawn in under
/// `palette`: the one the palette gives it, else the one it has by default.
pub open spec fn color_in(palette: Map<InstructionView, Color>, op: InstructionView) -> Color {
    if palette.contains_key(op) {
        palette[op]
    } else {
        Color::unpack(op.default_packed())
    }
}

/// The palette in which every operation without payload has its default
/// color.
pub open spec fn default_palette() -> Map<InstructionView, Color> {
    Map::new(
        |op: InstructionView| !op.is_payload(),
        |op: InstructionView| Color::unpack(op.default_packed()),
    )
}

/// `palette` after the operation called `name` (in upper case) was given the
/// color written as `value`. The name is looked at first: it must name an
/// operation, and one without payload.
pub open spec fn overridden(
    palette: Map<InstructionView, Color>,
    name: Seq<char>,
    value: Seq<char>,
) -> Result<Map<InstructionView, Color>, ConfigError> {
    match find(name) {
        None => Err(ConfigError::UnknownOpcode),
        Some(op) => if op.is_payload() {
            Err(ConfigError::PayloadOverride)
        } else {
            match color_of(value) {
                None => Err(ConfigError::MalformedColor),
                Some(color) => Ok(palette.insert(op, color)),
            }
        },
    }
}

/// `palette` after one entry of the color configuration. An entry without a
/// value, or with an empty one, changes nothing; the name of any other is put
/// in upper case before it is looked up.
pub open spec fn entry_applied(
    palette: Map<InstructionView, Color>,
    entry: (Seq<char>, Option<Seq<char>>),
) -> Result<Map<InstructionView, Color>, ConfigError> {
    match entry.1 {
        None => Ok(palette),
        Some(value) => if value.len() == 0 {
            Ok(palette)
        } else {
            overridden(palette, uppercase(entry.0), value)
        },
    }
}

/// `palette` after the entries of the color configuration, applied in order;
/// the error of the first entry that cannot be applied.
pub open spec fn entries_applied(
    palette: Map<InstructionView, Color>,
    entries: Seq<(Seq<char>, Option<Seq<char>>)>,
) -> Result<Map<InstructionView, Color>, ConfigError>
    decreases entries.len(),
{
    if entries.len() == 0 {
        Ok(palette)
    } else {
        match entries_applied(palette, entries.drop_last()) {
            Err(e) => Err(e),
            Ok(before) => entry_applied(before, entries.last()),
        }
    }
}

/// The settings of one run.
pub struct Params {
    /// The color of each operation without payload. An operation that is
    /// missing here is drawn in its default color.
    pub custom_colors: Palette,
    /// Side of the square of raster pixels that shows one pixel of the
    /// program.
    pub pixel_size: u16,
    /// Where the source text is read from.
    pub input_path: String,
    /// Where the image is written to.
    pub output_path: String,
    /// Where the color configuration is read from, if anywhere.
    pub ini_path: Option<String>,
    /// Largest number of program pixels in a row of the image; -1 for no
    /// limit of its own.
    pub max_width: i16,
    /// Whether data pixels are drawn in colors chosen at random.
    pub is_random: bool,
}

impl Palette {
    /// The palette in which every operation without payload has its default
    /// color.
    pub fn defaults() -> (palette: Palette)
        ensures
            palette@ == default_palette(),
    {
        let mut palette = Palette::new();
        let mut place: usize = 0;
        while place < PLAIN_COUNT
            invariant
                place <= PLAIN_COUNT,
                forall|op: InstructionView|
                    palette@.contains_key(op) <==> !op.is_payload() && op.position() < place,
                forall|op: InstructionView|
                    palette@.contains_key(op) ==> palette@[op] == Color::unpack(
                        op.default_packed(),
                    ),
            decreases PLAIN_COUNT - place,
        {
            let op = Instruction::at(place);
            let color = Color::from(DEFAULT_COLORS[place]);
            proof {
                lemma_places();
            }
            palette.insert(&op, color);
            place = place + 1;
        }
        assert(palette@ =~= default_palette());
        palette
    }

    /// The color that `op` is drawn in: the one it was given, else its
    /// default.
    pub fn color_of(&self, op: &Instruction) -> (color: Color)
        requires
            !op@.is_payload(),
        ensures
            color == color_in(self@, op@),
    {
        match self.get(op) {
            Some(color) => color,
            None => Color::from(DEFAULT_COLORS[op.position()]),
        }
    }
}

impl Palette {
    /// Gives the operation called `command`, a name in upper case, the color
    /// written as `value`. Where that cannot be done the palette stays as it
    /// is.
    pub fn set_color(&mut self, command: &str, value: &str) -> (r: Result<(), ConfigError>)
        ensures
            match overridden(old(self)@, command@, value@) {
                Ok(palette) => r is Ok && final(self)@ == palette,
                Err(e) => r == Err::<(), ConfigError>(e) && final(self)@ == old(self)@,
            },
    {
        let op = match Instruction::find_name(command) {
            None => {
                return Err(ConfigError::UnknownOpcode);
            },
            Some(op) => op,
        };
        if op.position() >= PLAIN_COUNT {
            return Err(ConfigError::PayloadOverride);
        }
        match parse_color(value) {
            None => Err(ConfigError::MalformedColor),
            Some(color) => {
                self.insert(&op, color);
                Ok(())
            },
        }
    }
}

impl Params {
    /// Sets the palette up: every operation without payload gets its default
    /// color, and then the entries of the color configuration are applied in
    /// order, each a name and, if it has one, a value. Where an entry cannot
    /// be applied, nothing is changed.
    pub fn read_colors(&mut self, overrides: &Vec<(String, Option<String>)>) -> (r: Result<
        (),
        ConfigError,
    >)
        ensures
            match entries_applied(default_palette(), overrides.deep_view()) {
                Ok(palette) => r is Ok && final(self).custom_colors@ == palette,
                Err(e) => r == Err::<(), ConfigError>(e) && final(self).custom_colors@ == old(
                    self,
                ).custom_colors@,
            },
            final(self).pixel_size == old(self).pixel_size,
            final(self).max_width == old(self).max_width,
            final(self).is_random == old(self).is_random,
            final(self).input_path == old(self).input_path,
            final(self).output_path == old(self).output_path,
            final(self).ini_path == old(self).ini_path,
    {
        let mut palette = Palette::defaults();
        let ghost entries = overrides.deep_view();
        let mut i: usize = 0;
        assert(entries.take(0) =~= Seq::empty());
        while i < overrides.len()
            invariant
                i <= overrides.len(),
                entries == overrides.deep_view(),
                entries_applied(default_palette(), entries.take(i as int)) == Ok::<
                    Map<InstructionView, Color>,
                    ConfigError,
                >(palette@),
            decreases overrides.len() - i,
        {
            let ghost entry = entries[i as int];
            assert(entries.take(i + 1).drop_last() =~= entries.take(i as int));
            assert(entries.take(i + 1).last() == entry);
            assert(entry.0 == overrides[i as int].0@);
            match &overrides[i].1 {
                None => {
                    assert(entry.1 is None);
                },
                Some(value) => {
                    assert(entry.1 == Some(value@));
                    if !value.as_str().is_empty() {
                        let command = to_uppercase(overrides[i].0.as_str());
                        match palette.set_color(command.as_str(), value.as_str()) {
                            Ok(()) => {},
                            Err(e) => {
                                proof {
                                    lemma_error_stays(default_palette(), entries, i + 1);
                                }
                                return Err(e);
                            },
                        }
                    }
                },
            }
            i = i + 1;
        }
        assert(entries.take(i as int) =~= entries);
        self.custom_colors = palette;
        Ok(())
    }
}

/// Once an entry cannot be applied, no later entry changes that.
pub proof fn lemma_error_stays(
    palette: Map<InstructionView, Color>,
    entries: Seq<(Seq<char>, Option<Seq<char>>)>,
    k: int,
)
    requires
        0 <= k <= entries.len(),
        entries_applied(palette, entries.take(k)) is Err,
    ensures
        entries_applied(palette, entries) == entries_applied(palette, entries.take(k)),
    decreases entries.len() - k,
{
    if k < entries.len() {
        assert(entries.take(k + 1).drop_last() =~= entries.take(k));
        lemma_error_stays(palette, entries, k + 1);
    } else {
        assert(entries.take(k) =~= entries);
    }
}

/// Whether `palette` gives a color to every operation without payload, and
/// to no other.
pub open spec fn complete(palette: Map<InstructionView, Color>) -> bool {
    forall|op: InstructionView| palette.contains_key(op) <==> !op.is_payload()
}

/// A palette that was set up is complete, whatever the entries of the color
/// configuration were: its keys are the operations without payload.
pub proof fn lemma_set_up_complete(entries: Seq<(Seq<char>, Option<Seq<char>>)>)
    ensures
        entries_applied(default_palette(), entries) matches Ok(palette) ==> complete(palette),
    decreases entries.len(),
{
    if entries.len() > 0 {
        lemma_set_up_complete(entries.drop_last());
    }
}

/// No entry of the color configuration gives a color to an operation that
/// carries a payload: under the name of such an operation, every value is
/// refused.
pub proof fn lemma_payload_refused(
    palette: Map<InstructionView, Color>,
    op: InstructionView,
    value: Seq<char>,
)
    requires
        op.is_payload(),
    ensures
        overridden(palette, op.name(), value) == Err::<Map<InstructionView, Color>, ConfigError>(
            ConfigError::PayloadOverride,
        ),
{
    lemma_catalog_round_trip(op);
    lemma_places();
}

} // verus!
