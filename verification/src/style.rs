//! A toolkit-neutral text style: what a glyph *is*, never what color to paint it.
//!
//! A [`Role`] (heading, code, link, a list bullet, …) stands beside the portable emphasis
//! the author wrote. Palette is presentation, and presentation belongs to the frontend.

use vstd::prelude::*;
use crate::text;

verus! {

// ── attributes ─────────────────────────────────────────────────────────────────
/// The value of the first attribute named `key`, from the attribute `from` on: `None`
/// where no attribute has that name, or the first that has it has no value.
pub open spec fn attr_value_from(
    attrs: Seq<(String, Option<String>)>,
    key: Seq<char>,
    from: int,
) -> Option<Seq<char>>
    decreases attrs.len() - from,
{
    if from >= attrs.len() {
        None
    } else if attrs[from].0@ == key {
        match attrs[from].1 {
            Some(value) => Some(value@),
            None => None,
        }
    } else {
        attr_value_from(attrs, key, from + 1)
    }
}

/// The value of the first attribute named `key`.
pub open spec fn attr_value(attrs: Seq<(String, Option<String>)>, key: Seq<char>) -> Option<
    Seq<char>,
> {
    attr_value_from(attrs, key, 0)
}

/// The value of the first attribute named `key`.
pub fn find_attr<'a>(attrs: &'a [(String, Option<String>)], key: &str) -> (r: Option<&'a str>)
    ensures
        match r {
            Some(value) => attr_value(attrs@, key@) == Some(value@),
            None => attr_value(attrs@, key@) is None,
        },
{
    let mut i: usize = 0;
    while i < attrs.len()
        invariant
            i <= attrs@.len(),
            attr_value(attrs@, key@) == attr_value_from(attrs@, key@, i as int),
        decreases attrs@.len() - i,
    {
        if text::str_eq(attrs[i].0.as_str(), key) {
            return match &attrs[i].1 {
                Some(value) => Some(value.as_str()),
                None => None,
            };
        }
        i = i + 1;
    }
    None
}

// ── the vocabularies ───────────────────────────────────────────────────────────
/// What a glyph *is*, typographically: the semantic role a frontend maps to its own
/// presentation. Mutually exclusive per glyph; the emphasis a run can also carry lives in
/// [`Style`]'s flags.
#[derive(Clone, Copy, PartialEq, Eq, Debug, Structural)]
pub enum Role {
    /// Ordinary prose.
    Body,
    /// A heading of the given level (1 = top).
    Heading(u8),
    /// Code, inline or a block.
    Code,
    /// A hyperlink's visible text.
    Link,
    /// Highlighted text, with the color the author named if they named one.
    Mark(Option<MarkColor>),
    /// A list item's bullet or number.
    ListMarker,
    /// The indent that sets a nested list item in.
    ListIndent,
    /// A block quote's gutter.
    QuoteGutter,
    /// A drawn rule: a thematic break or a table's borders.
    Rule,
    /// Raw markup that a revealed line is showing.
    Delimiter,
    /// A block-level image's placeholder text.
    Image,
    /// A formula's atom or placeholder.
    Math,
}

impl Default for Role {
    fn default() -> (r: Role)
        ensures
            r == Role::Body,
    {
        Role::Body
    }
}

/// The color an author named on a highlight: a *name*, not a paint value.
#[derive(Clone, Copy, PartialEq, Eq, Debug, Structural)]
pub enum MarkColor {
    Red,
    Orange,
    Yellow,
    Green,
    Blue,
    Purple,
    Brown,
}

impl MarkColor {
    /// Every value, in order: a value's place here is its [`index`](Self::index).
    pub const ALL: [MarkColor; 7] = [
        MarkColor::Red,
        MarkColor::Orange,
        MarkColor::Yellow,
        MarkColor::Green,
        MarkColor::Blue,
        MarkColor::Purple,
        MarkColor::Brown,
    ];

    /// The word that spells it.
    pub open spec fn spelling(self) -> Seq<char> {
        match self {
            MarkColor::Red => "red"@,
            MarkColor::Orange => "orange"@,
            MarkColor::Yellow => "yellow"@,
            MarkColor::Green => "green"@,
            MarkColor::Blue => "blue"@,
            MarkColor::Purple => "purple"@,
            MarkColor::Brown => "brown"@,
        }
    }

    /// The value that a word spells.
    pub open spec fn spelled(word: Seq<char>) -> Option<MarkColor> {
        if word == "red"@ {
            Some(MarkColor::Red)
        } else if word == "orange"@ {
            Some(MarkColor::Orange)
        } else if word == "yellow"@ {
            Some(MarkColor::Yellow)
        } else if word == "green"@ {
            Some(MarkColor::Green)
        } else if word == "blue"@ {
            Some(MarkColor::Blue)
        } else if word == "purple"@ {
            Some(MarkColor::Purple)
        } else if word == "brown"@ {
            Some(MarkColor::Brown)
        } else {
            None
        }
    }

    /// The color a node's attributes name under `data-color`, if any.
    pub fn from_attrs(attrs: &[(String, Option<String>)]) -> (r: Option<MarkColor>)
        ensures
            r == (match attr_value(attrs@, "data-color"@) {
                Some(value) => MarkColor::spelled(value),
                None => None,
            }),
    {
        match find_attr(attrs, "data-color") {
            Some(value) => MarkColor::from_attr(value),
            None => None,
        }
    }

    /// Read a `data-color` value: `None` for a name outside the vocabulary.
    pub fn from_attr(value: &str) -> (r: Option<MarkColor>)
        ensures
            r == MarkColor::spelled(value@),
    {
        if text::str_eq(value, "red") {
            Some(MarkColor::Red)
        } else if text::str_eq(value, "orange") {
            Some(MarkColor::Orange)
        } else if text::str_eq(value, "yellow") {
            Some(MarkColor::Yellow)
        } else if text::str_eq(value, "green") {
            Some(MarkColor::Green)
        } else if text::str_eq(value, "blue") {
            Some(MarkColor::Blue)
        } else if text::str_eq(value, "purple") {
            Some(MarkColor::Purple)
        } else if text::str_eq(value, "brown") {
            Some(MarkColor::Brown)
        } else {
            None
        }
    }

    /// The word that spells it, which [`from_attr`](Self::from_attr) reads back.
    pub fn name(self) -> (r: &'static str)
        ensures
            r@ == self.spelling(),
    {
        match self {
            MarkColor::Red => "red",
            MarkColor::Orange => "orange",
            MarkColor::Yellow => "yellow",
            MarkColor::Green => "green",
            MarkColor::Blue => "blue",
            MarkColor::Purple => "purple",
            MarkColor::Brown => "brown",
        }
    }

    /// The place among [`ALL`](Self::ALL).
    pub open spec fn place(self) -> int {
        match self {
            MarkColor::Red => 0,
            MarkColor::Orange => 1,
            MarkColor::Yellow => 2,
            MarkColor::Green => 3,
            MarkColor::Blue => 4,
            MarkColor::Purple => 5,
            MarkColor::Brown => 6,
        }
    }

    /// The place among [`ALL`](Self::ALL), by which a palette is keyed.
    pub fn index(self) -> (r: usize)
        ensures
            r == self.place(),
    {
        match self {
            MarkColor::Red => 0,
            MarkColor::Orange => 1,
            MarkColor::Yellow => 2,
            MarkColor::Green => 3,
            MarkColor::Blue => 4,
            MarkColor::Purple => 5,
            MarkColor::Brown => 6,
        }
    }

    /// A value's word spells that value and no other, and its index is its place among
    /// [`ALL`](Self::ALL).
    pub proof fn law_tables_agree(self)
        ensures
            MarkColor::spelled(self.spelling()) == Some(self),
            0 <= self.place() < MarkColor::ALL@.len(),
            MarkColor::ALL@[self.place()] == self,
    {
        reveal_strlit("red");
        reveal_strlit("orange");
        reveal_strlit("yellow");
        reveal_strlit("green");
        reveal_strlit("blue");
        reveal_strlit("purple");
        reveal_strlit("brown");
        assert("red"@.len() == 3);
        assert("orange"@.len() == 6);
        assert("yellow"@.len() == 6);
        assert("green"@.len() == 5);
        assert("blue"@.len() == 4);
        assert("purple"@.len() == 6);
        assert("brown"@.len() == 5);
        assert("yellow"@[0] != "orange"@[0]);
        assert("purple"@[0] != "orange"@[0]);
        assert("purple"@[0] != "yellow"@[0]);
        assert("brown"@[0] != "green"@[0]);
    }

    /// Only the word of a value spells it.
    pub proof fn law_spelled_once(word: Seq<char>)
        ensures
            MarkColor::spelled(word) matches Some(value) ==> word == value.spelling(),
    {
    }
}

/// How a block's lines are set across the measure. There is no `Left`: absence is left.
#[derive(Clone, Copy, PartialEq, Eq, Debug, Structural)]
pub enum Align {
    Center,
    Right,
    Justify,
}

impl Align {
    /// Every value, in order: a value's place here is its [`index`](Self::index).
    pub const ALL: [Align; 3] = [
        Align::Center,
        Align::Right,
        Align::Justify,
    ];

    /// The word that spells it.
    pub open spec fn spelling(self) -> Seq<char> {
        match self {
            Align::Center => "center"@,
            Align::Right => "right"@,
            Align::Justify => "justify"@,
        }
    }

    /// The value that a word spells.
    pub open spec fn spelled(word: Seq<char>) -> Option<Align> {
        if word == "center"@ {
            Some(Align::Center)
        } else if word == "right"@ {
            Some(Align::Right)
        } else if word == "justify"@ {
            Some(Align::Justify)
        } else {
            None
        }
    }

    /// Read one `class` token: `None` for a token outside the vocabulary, which is somebody
    /// else's.
    pub fn from_token(token: &str) -> (r: Option<Align>)
        ensures
            r == Align::spelled(token@),
    {
        if text::str_eq(token, "center") {
            Some(Align::Center)
        } else if text::str_eq(token, "right") {
            Some(Align::Right)
        } else if text::str_eq(token, "justify") {
            Some(Align::Justify)
        } else {
            None
        }
    }

    /// The token that spells it, which [`from_token`](Self::from_token) reads back.
    pub fn name(self) -> (r: &'static str)
        ensures
            r@ == self.spelling(),
    {
        match self {
            Align::Center => "center",
            Align::Right => "right",
            Align::Justify => "justify",
        }
    }

    /// The place among [`ALL`](Self::ALL).
    pub open spec fn place(self) -> int {
        match self {
            Align::Center => 0,
            Align::Right => 1,
            Align::Justify => 2,
        }
    }

    /// The place among [`ALL`](Self::ALL), by which a control is keyed.
    pub fn index(self) -> (r: usize)
        ensures
            r == self.place(),
    {
        match self {
            Align::Center => 0,
            Align::Right => 1,
            Align::Justify => 2,
        }
    }

    /// A value's word spells that value and no other, and its index is its place among
    /// [`ALL`](Self::ALL).
    pub proof fn law_tables_agree(self)
        ensures
            Align::spelled(self.spelling()) == Some(self),
            0 <= self.place() < Align::ALL@.len(),
            Align::ALL@[self.place()] == self,
    {
        reveal_strlit("center");
        reveal_strlit("right");
        reveal_strlit("justify");
        assert("center"@.len() == 6);
        assert("right"@.len() == 5);
        assert("justify"@.len() == 7);
    }

    /// Only the word of a value spells it.
    pub proof fn law_spelled_once(word: Seq<char>)
        ensures
            Align::spelled(word) matches Some(value) ==> word == value.spelling(),
    {
    }
}

impl Align {
    /// The first token of a class list, read from `from` on, that names an alignment.
    pub open spec fn in_class(class: Seq<char>, from: int) -> Option<Align>
        decreases class.len() - from,
        when 0 <= from
    {
        if from >= class.len() {
            None
        } else {
            let start = text::space_end(class, from, class.len() as int);
            let end = text::word_end(class, start);
            if start >= class.len() {
                None
            } else {
                proof {
                    text::lemma_space_end(class, from, class.len() as int);
                    text::lemma_word_end(class, start);
                }
                match Align::spelled(class.subrange(start, end)) {
                    Some(align) => Some(align),
                    None => Align::in_class(class, end),
                }
            }
        }
    }

    /// The alignment a block's attributes name, if any: the first token of `class` that
    /// is one of the three.
    pub fn from_attrs(attrs: &[(String, Option<String>)]) -> (r: Option<Align>)
        ensures
            r == (match attr_value(attrs@, "class"@) {
                Some(class) => Align::in_class(class, 0),
                None => None,
            }),
    {
        let class = match find_attr(attrs, "class") {
            Some(class) => text::chars_of(class),
            None => return None,
        };
        let chars = class.as_slice();
        let mut from: usize = 0;
        while from < chars.len()
            invariant
                from <= chars@.len(),
                attr_value(attrs@, "class"@) == Some(chars@),
                Align::in_class(chars@, 0) == Align::in_class(chars@, from as int),
            decreases chars@.len() - from,
        {
            let start = text::skip_space(chars, from, chars.len());
            if start >= chars.len() {
                return None;
            }
            proof {
                text::lemma_space_end(chars@, from as int, chars@.len() as int);
                text::lemma_word_end(chars@, start as int);
            }
            let end = text::find_word_end(chars, start);
            let token = text::string_of(chars, start, end);
            let read = Align::from_token(token.as_str());
            if read.is_some() {
                return read;
            }
            from = end;
        }
        None
    }
}

/// How far apart a block's lines are set, as a multiple of the theme's own line height.
#[derive(Clone, Copy, PartialEq, Eq, Debug, Structural)]
pub enum LineSpacing {
    /// `1.15`.
    OneFifteen,
    /// `1.5`.
    OneHalf,
    /// `2`: double spacing.
    Double,
}

impl LineSpacing {
    /// Every value, in order: a value's place here is its [`index`](Self::index).
    pub const ALL: [LineSpacing; 3] = [
        LineSpacing::OneFifteen,
        LineSpacing::OneHalf,
        LineSpacing::Double,
    ];

    /// The word that spells it.
    pub open spec fn spelling(self) -> Seq<char> {
        match self {
            LineSpacing::OneFifteen => "1.15"@,
            LineSpacing::OneHalf => "1.5"@,
            LineSpacing::Double => "2"@,
        }
    }

    /// The value that a word spells.
    pub open spec fn spelled(word: Seq<char>) -> Option<LineSpacing> {
        if word == "1.15"@ {
            Some(LineSpacing::OneFifteen)
        } else if word == "1.5"@ {
            Some(LineSpacing::OneHalf)
        } else if word == "2"@ {
            Some(LineSpacing::Double)
        } else {
            None
        }
    }

    /// The spacing a block's attributes name under `data-line-height`, if any.
    pub fn from_attrs(attrs: &[(String, Option<String>)]) -> (r: Option<LineSpacing>)
        ensures
            r == (match attr_value(attrs@, "data-line-height"@) {
                Some(value) => LineSpacing::spelled(value),
                None => None,
            }),
    {
        match find_attr(attrs, "data-line-height") {
            Some(value) => LineSpacing::from_attr(value),
            None => None,
        }
    }

    /// Read a `data-line-height` value: `None` for a ratio outside the vocabulary.
    pub fn from_attr(value: &str) -> (r: Option<LineSpacing>)
        ensures
            r == LineSpacing::spelled(value@),
    {
        if text::str_eq(value, "1.15") {
            Some(LineSpacing::OneFifteen)
        } else if text::str_eq(value, "1.5") {
            Some(LineSpacing::OneHalf)
        } else if text::str_eq(value, "2") {
            Some(LineSpacing::Double)
        } else {
            None
        }
    }

    /// The word that spells it, which [`from_attr`](Self::from_attr) reads back.
    pub fn name(self) -> (r: &'static str)
        ensures
            r@ == self.spelling(),
    {
        match self {
            LineSpacing::OneFifteen => "1.15",
            LineSpacing::OneHalf => "1.5",
            LineSpacing::Double => "2",
        }
    }

    /// The place among [`ALL`](Self::ALL).
    pub open spec fn place(self) -> int {
        match self {
            LineSpacing::OneFifteen => 0,
            LineSpacing::OneHalf => 1,
            LineSpacing::Double => 2,
        }
    }

    /// The place among [`ALL`](Self::ALL), by which a menu is keyed.
    pub fn index(self) -> (r: usize)
        ensures
            r == self.place(),
    {
        match self {
            LineSpacing::OneFifteen => 0,
            LineSpacing::OneHalf => 1,
            LineSpacing::Double => 2,
        }
    }

    /// A value's word spells that value and no other, and its index is its place among
    /// [`ALL`](Self::ALL).
    pub proof fn law_tables_agree(self)
        ensures
            LineSpacing::spelled(self.spelling()) == Some(self),
            0 <= self.place() < LineSpacing::ALL@.len(),
            LineSpacing::ALL@[self.place()] == self,
    {
        reveal_strlit("1.15");
        reveal_strlit("1.5");
        reveal_strlit("2");
        assert("1.15"@.len() == 4);
        assert("1.5"@.len() == 3);
        assert("2"@.len() == 1);
    }

    /// Only the word of a value spells it.
    pub proof fn law_spelled_once(word: Seq<char>)
        ensures
            LineSpacing::spelled(word) matches Some(value) ==> word == value.spelling(),
    {
    }
}

/// How large a run is set relative to the text around it: a *step*, never a measurement.
#[derive(Clone, Copy, PartialEq, Eq, Debug, Structural)]
pub enum SizeStep {
    XxSmall,
    XSmall,
    Small,
    Large,
    XLarge,
    XxLarge,
    XxxLarge,
}

impl SizeStep {
    /// Every value, in order: a value's place here is its [`index`](Self::index).
    pub const ALL: [SizeStep; 7] = [
        SizeStep::XxSmall,
        SizeStep::XSmall,
        SizeStep::Small,
        SizeStep::Large,
        SizeStep::XLarge,
        SizeStep::XxLarge,
        SizeStep::XxxLarge,
    ];

    /// The word that spells it.
    pub open spec fn spelling(self) -> Seq<char> {
        match self {
            SizeStep::XxSmall => "xx-small"@,
            SizeStep::XSmall => "x-small"@,
            SizeStep::Small => "small"@,
            SizeStep::Large => "large"@,
            SizeStep::XLarge => "x-large"@,
            SizeStep::XxLarge => "xx-large"@,
            SizeStep::XxxLarge => "xxx-large"@,
        }
    }

    /// The value that a word spells.
    pub open spec fn spelled(word: Seq<char>) -> Option<SizeStep> {
        if word == "xx-small"@ {
            Some(SizeStep::XxSmall)
        } else if word == "x-small"@ {
            Some(SizeStep::XSmall)
        } else if word == "small"@ {
            Some(SizeStep::Small)
        } else if word == "large"@ {
            Some(SizeStep::Large)
        } else if word == "x-large"@ {
            Some(SizeStep::XLarge)
        } else if word == "xx-large"@ {
            Some(SizeStep::XxLarge)
        } else if word == "xxx-large"@ {
            Some(SizeStep::XxxLarge)
        } else {
            None
        }
    }

    /// The size a node's attributes name under `data-size`, if any.
    pub fn from_attrs(attrs: &[(String, Option<String>)]) -> (r: Option<SizeStep>)
        ensures
            r == (match attr_value(attrs@, "data-size"@) {
                Some(value) => SizeStep::spelled(value),
                None => None,
            }),
    {
        match find_attr(attrs, "data-size") {
            Some(value) => SizeStep::from_attr(value),
            None => None,
        }
    }

    /// Read a `data-size` value: `None` for a name outside the vocabulary.
    pub fn from_attr(value: &str) -> (r: Option<SizeStep>)
        ensures
            r == SizeStep::spelled(value@),
    {
        if text::str_eq(value, "xx-small") {
            Some(SizeStep::XxSmall)
        } else if text::str_eq(value, "x-small") {
            Some(SizeStep::XSmall)
        } else if text::str_eq(value, "small") {
            Some(SizeStep::Small)
        } else if text::str_eq(value, "large") {
            Some(SizeStep::Large)
        } else if text::str_eq(value, "x-large") {
            Some(SizeStep::XLarge)
        } else if text::str_eq(value, "xx-large") {
            Some(SizeStep::XxLarge)
        } else if text::str_eq(value, "xxx-large") {
            Some(SizeStep::XxxLarge)
        } else {
            None
        }
    }

    /// The word that spells it, which [`from_attr`](Self::from_attr) reads back.
    pub fn name(self) -> (r: &'static str)
        ensures
            r@ == self.spelling(),
    {
        match self {
            SizeStep::XxSmall => "xx-small",
            SizeStep::XSmall => "x-small",
            SizeStep::Small => "small",
            SizeStep::Large => "large",
            SizeStep::XLarge => "x-large",
            SizeStep::XxLarge => "xx-large",
            SizeStep::XxxLarge => "xxx-large",
        }
    }

    /// The place among [`ALL`](Self::ALL).
    pub open spec fn place(self) -> int {
        match self {
            SizeStep::XxSmall => 0,
            SizeStep::XSmall => 1,
            SizeStep::Small => 2,
            SizeStep::Large => 3,
            SizeStep::XLarge => 4,
            SizeStep::XxLarge => 5,
            SizeStep::XxxLarge => 6,
        }
    }

    /// The place among [`ALL`](Self::ALL), smallest first.
    pub fn index(self) -> (r: usize)
        ensures
            r == self.place(),
    {
        match self {
            SizeStep::XxSmall => 0,
            SizeStep::XSmall => 1,
            SizeStep::Small => 2,
            SizeStep::Large => 3,
            SizeStep::XLarge => 4,
            SizeStep::XxLarge => 5,
            SizeStep::XxxLarge => 6,
        }
    }

    /// A value's word spells that value and no other, and its index is its place among
    /// [`ALL`](Self::ALL).
    pub proof fn law_tables_agree(self)
        ensures
            SizeStep::spelled(self.spelling()) == Some(self),
            0 <= self.place() < SizeStep::ALL@.len(),
            SizeStep::ALL@[self.place()] == self,
    {
        reveal_strlit("xx-small");
        reveal_strlit("x-small");
        reveal_strlit("small");
        reveal_strlit("large");
        reveal_strlit("x-large");
        reveal_strlit("xx-large");
        reveal_strlit("xxx-large");
        assert("xx-small"@.len() == 8);
        assert("x-small"@.len() == 7);
        assert("small"@.len() == 5);
        assert("large"@.len() == 5);
        assert("x-large"@.len() == 7);
        assert("xx-large"@.len() == 8);
        assert("xxx-large"@.len() == 9);
        assert("large"@[0] != "small"@[0]);
        assert("x-large"@[2] != "x-small"@[2]);
        assert("xx-large"@[3] != "xx-small"@[3]);
    }

    /// Only the word of a value spells it.
    pub proof fn law_spelled_once(word: Seq<char>)
        ensures
            SizeStep::spelled(word) matches Some(value) ==> word == value.spelling(),
    {
    }
}

/// The face a run is set in: a generic family, never a font name.
#[derive(Clone, Copy, PartialEq, Eq, Debug, Structural)]
pub enum FontFamily {
    Serif,
    SansSerif,
    Monospace,
    Cursive,
}

impl FontFamily {
    /// Every value, in order: a value's place here is its [`index`](Self::index).
    pub const ALL: [FontFamily; 4] = [
        FontFamily::Serif,
        FontFamily::SansSerif,
        FontFamily::Monospace,
        FontFamily::Cursive,
    ];

    /// The word that spells it.
    pub open spec fn spelling(self) -> Seq<char> {
        match self {
            FontFamily::Serif => "serif"@,
            FontFamily::SansSerif => "sans-serif"@,
            FontFamily::Monospace => "monospace"@,
            FontFamily::Cursive => "cursive"@,
        }
    }

    /// The value that a word spells.
    pub open spec fn spelled(word: Seq<char>) -> Option<FontFamily> {
        if word == "serif"@ {
            Some(FontFamily::Serif)
        } else if word == "sans-serif"@ {
            Some(FontFamily::SansSerif)
        } else if word == "monospace"@ {
            Some(FontFamily::Monospace)
        } else if word == "cursive"@ {
            Some(FontFamily::Cursive)
        } else {
            None
        }
    }

    /// The face a node's attributes name under `data-font`, if any.
    pub fn from_attrs(attrs: &[(String, Option<String>)]) -> (r: Option<FontFamily>)
        ensures
            r == (match attr_value(attrs@, "data-font"@) {
                Some(value) => FontFamily::spelled(value),
                None => None,
            }),
    {
        match find_attr(attrs, "data-font") {
            Some(value) => FontFamily::from_attr(value),
            None => None,
        }
    }

    /// Read a `data-font` value: `None` for a concrete family name.
    pub fn from_attr(value: &str) -> (r: Option<FontFamily>)
        ensures
            r == FontFamily::spelled(value@),
    {
        if text::str_eq(value, "serif") {
            Some(FontFamily::Serif)
        } else if text::str_eq(value, "sans-serif") {
            Some(FontFamily::SansSerif)
        } else if text::str_eq(value, "monospace") {
            Some(FontFamily::Monospace)
        } else if text::str_eq(value, "cursive") {
            Some(FontFamily::Cursive)
        } else {
            None
        }
    }

    /// The word that spells it, which [`from_attr`](Self::from_attr) reads back.
    pub fn name(self) -> (r: &'static str)
        ensures
            r@ == self.spelling(),
    {
        match self {
            FontFamily::Serif => "serif",
            FontFamily::SansSerif => "sans-serif",
            FontFamily::Monospace => "monospace",
            FontFamily::Cursive => "cursive",
        }
    }

    /// The place among [`ALL`](Self::ALL).
    pub open spec fn place(self) -> int {
        match self {
            FontFamily::Serif => 0,
            FontFamily::SansSerif => 1,
            FontFamily::Monospace => 2,
            FontFamily::Cursive => 3,
        }
    }

    /// The place among [`ALL`](Self::ALL), by which a font table is keyed.
    pub fn index(self) -> (r: usize)
        ensures
            r == self.place(),
    {
        match self {
            FontFamily::Serif => 0,
            FontFamily::SansSerif => 1,
            FontFamily::Monospace => 2,
            FontFamily::Cursive => 3,
        }
    }

    /// A value's word spells that value and no other, and its index is its place among
    /// [`ALL`](Self::ALL).
    pub proof fn law_tables_agree(self)
        ensures
            FontFamily::spelled(self.spelling()) == Some(self),
            0 <= self.place() < FontFamily::ALL@.len(),
            FontFamily::ALL@[self.place()] == self,
    {
        reveal_strlit("serif");
        reveal_strlit("sans-serif");
        reveal_strlit("monospace");
        reveal_strlit("cursive");
        assert("serif"@.len() == 5);
        assert("sans-serif"@.len() == 10);
        assert("monospace"@.len() == 9);
        assert("cursive"@.len() == 7);
    }

    /// Only the word of a value spells it.
    pub proof fn law_spelled_once(word: Seq<char>)
        ensures
            FontFamily::spelled(word) matches Some(value) ==> word == value.spelling(),
    {
    }
}

/// What a glyph of a code block is *to the language it is written in*. The order is one of
/// precedence: a scope that names two of these is the later one.
#[derive(Clone, Copy, PartialEq, Eq, Debug, Structural)]
pub enum Token {
    /// Brackets, operators, separators.
    Punctuation,
    /// A reserved word or a storage modifier.
    Keyword,
    /// A name the author defined or named.
    Entity,
    /// A name the language or its library provides.
    Support,
    /// A literal that is not a string.
    Constant,
    /// A string literal, delimiters included.
    String,
    /// A comment.
    Comment,
    /// What the grammar could not parse.
    Invalid,
}

impl Token {
    /// Every value, in order: a value's place here is its [`index`](Self::index).
    pub const ALL: [Token; 8] = [
        Token::Punctuation,
        Token::Keyword,
        Token::Entity,
        Token::Support,
        Token::Constant,
        Token::String,
        Token::Comment,
        Token::Invalid,
    ];

    /// The word that spells it.
    pub open spec fn spelling(self) -> Seq<char> {
        match self {
            Token::Punctuation => "punctuation"@,
            Token::Keyword => "keyword"@,
            Token::Entity => "entity"@,
            Token::Support => "support"@,
            Token::Constant => "constant"@,
            Token::String => "string"@,
            Token::Comment => "comment"@,
            Token::Invalid => "invalid"@,
        }
    }

    /// The value that a word spells.
    pub open spec fn spelled(word: Seq<char>) -> Option<Token> {
        if word == "punctuation"@ {
            Some(Token::Punctuation)
        } else if word == "keyword"@ {
            Some(Token::Keyword)
        } else if word == "entity"@ {
            Some(Token::Entity)
        } else if word == "support"@ {
            Some(Token::Support)
        } else if word == "constant"@ {
            Some(Token::Constant)
        } else if word == "string"@ {
            Some(Token::String)
        } else if word == "comment"@ {
            Some(Token::Comment)
        } else if word == "invalid"@ {
            Some(Token::Invalid)
        } else {
            None
        }
    }

    /// The token a class id names, or `None` for a name outside the vocabulary.
    pub fn from_name(name: &str) -> (r: Option<Token>)
        ensures
            r == Token::spelled(name@),
    {
        if text::str_eq(name, "punctuation") {
            Some(Token::Punctuation)
        } else if text::str_eq(name, "keyword") {
            Some(Token::Keyword)
        } else if text::str_eq(name, "entity") {
            Some(Token::Entity)
        } else if text::str_eq(name, "support") {
            Some(Token::Support)
        } else if text::str_eq(name, "constant") {
            Some(Token::Constant)
        } else if text::str_eq(name, "string") {
            Some(Token::String)
        } else if text::str_eq(name, "comment") {
            Some(Token::Comment)
        } else if text::str_eq(name, "invalid") {
            Some(Token::Invalid)
        } else {
            None
        }
    }

    /// The class id, which [`from_name`](Self::from_name) reads back.
    pub fn name(self) -> (r: &'static str)
        ensures
            r@ == self.spelling(),
    {
        match self {
            Token::Punctuation => "punctuation",
            Token::Keyword => "keyword",
            Token::Entity => "entity",
            Token::Support => "support",
            Token::Constant => "constant",
            Token::String => "string",
            Token::Comment => "comment",
            Token::Invalid => "invalid",
        }
    }

    /// The place among [`ALL`](Self::ALL).
    pub open spec fn place(self) -> int {
        match self {
            Token::Punctuation => 0,
            Token::Keyword => 1,
            Token::Entity => 2,
            Token::Support => 3,
            Token::Constant => 4,
            Token::String => 5,
            Token::Comment => 6,
            Token::Invalid => 7,
        }
    }

    /// The place among [`ALL`](Self::ALL), by which a palette is keyed.
    pub fn index(self) -> (r: usize)
        ensures
            r == self.place(),
    {
        match self {
            Token::Punctuation => 0,
            Token::Keyword => 1,
            Token::Entity => 2,
            Token::Support => 3,
            Token::Constant => 4,
            Token::String => 5,
            Token::Comment => 6,
            Token::Invalid => 7,
        }
    }

    /// A value's word spells that value and no other, and its index is its place among
    /// [`ALL`](Self::ALL).
    pub proof fn law_tables_agree(self)
        ensures
            Token::spelled(self.spelling()) == Some(self),
            0 <= self.place() < Token::ALL@.len(),
            Token::ALL@[self.place()] == self,
    {
        reveal_strlit("punctuation");
        reveal_strlit("keyword");
        reveal_strlit("entity");
        reveal_strlit("support");
        reveal_strlit("constant");
        reveal_strlit("string");
        reveal_strlit("comment");
        reveal_strlit("invalid");
        assert("punctuation"@.len() == 11);
        assert("keyword"@.len() == 7);
        assert("entity"@.len() == 6);
        assert("support"@.len() == 7);
        assert("constant"@.len() == 8);
        assert("string"@.len() == 6);
        assert("comment"@.len() == 7);
        assert("invalid"@.len() == 7);
        assert("support"@[0] != "keyword"@[0]);
        assert("string"@[0] != "entity"@[0]);
        assert("comment"@[0] != "keyword"@[0]);
        assert("comment"@[0] != "support"@[0]);
        assert("invalid"@[0] != "keyword"@[0]);
        assert("invalid"@[0] != "support"@[0]);
        assert("invalid"@[0] != "comment"@[0]);
    }

    /// Only the word of a value spells it.
    pub proof fn law_spelled_once(word: Seq<char>)
        ensures
            Token::spelled(word) matches Some(value) ==> word == value.spelling(),
    {
    }
}

/// Which line a glyph sits on relative to the text around it.
#[derive(Clone, Copy, PartialEq, Eq, Debug, Structural)]
pub enum Baseline {
    /// The ordinary text baseline.
    Normal,
    /// Raised.
    Super,
    /// Lowered.
    Sub,
}

impl Default for Baseline {
    fn default() -> (r: Baseline)
        ensures
            r == Baseline::Normal,
    {
        Baseline::Normal
    }
}

/// A glyph's style: a typographic [`Role`] plus the emphasis the author wrote.
#[derive(Clone, Copy, PartialEq, Eq, Debug, Structural)]
pub struct Style {
    pub bold: bool,
    pub italic: bool,
    pub underline: bool,
    pub strikethrough: bool,
    /// The typographic role.
    pub role: Role,
    /// Which line the glyph sits on.
    pub baseline: Baseline,
    /// What a code glyph is to its language.
    pub token: Option<Token>,
    /// How large this run is set relative to the text around it.
    pub size: Option<SizeStep>,
    /// The face this run is set in.
    pub font: Option<FontFamily>,
    /// The run's foreground color.
    pub color: Option<MarkColor>,
}

/// The style of ordinary text.
pub open spec fn plain() -> Style {
    Style {
        bold: false,
        italic: false,
        underline: false,
        strikethrough: false,
        role: Role::Body,
        baseline: Baseline::Normal,
        token: None,
        size: None,
        font: None,
        color: None,
    }
}

impl Default for Style {
    fn default() -> (r: Style)
        ensures
            r == plain(),
    {
        Style {
            bold: false,
            italic: false,
            underline: false,
            strikethrough: false,
            role: Role::Body,
            baseline: Baseline::Normal,
            token: None,
            size: None,
            font: None,
            color: None,
        }
    }
}

impl Style {
    /// The same style, bold.
    pub fn bold(self) -> (r: Style)
        ensures
            r == (Style { bold: true, ..self }),
    {
        Style { bold: true, ..self }
    }

    /// The same style, italic.
    pub fn italic(self) -> (r: Style)
        ensures
            r == (Style { italic: true, ..self }),
    {
        Style { italic: true, ..self }
    }

    /// The same style, underlined.
    pub fn underline(self) -> (r: Style)
        ensures
            r == (Style { underline: true, ..self }),
    {
        Style { underline: true, ..self }
    }

    /// The same style, struck through.
    pub fn strikethrough(self) -> (r: Style)
        ensures
            r == (Style { strikethrough: true, ..self }),
    {
        Style { strikethrough: true, ..self }
    }

    /// The same style, in that role.
    pub fn role(self, role: Role) -> (r: Style)
        ensures
            r == (Style { role: role, ..self }),
    {
        Style { role: role, ..self }
    }

    /// The same style, on that baseline.
    pub fn baseline(self, b: Baseline) -> (r: Style)
        ensures
            r == (Style { baseline: b, ..self }),
    {
        Style { baseline: b, ..self }
    }

    /// The same style, with that token.
    pub fn token(self, t: Option<Token>) -> (r: Style)
        ensures
            r == (Style { token: t, ..self }),
    {
        Style { token: t, ..self }
    }

    /// The same style, at that size.
    pub fn size(self, s: Option<SizeStep>) -> (r: Style)
        ensures
            r == (Style { size: s, ..self }),
    {
        Style { size: s, ..self }
    }

    /// The same style, in that face.
    pub fn font(self, f: Option<FontFamily>) -> (r: Style)
        ensures
            r == (Style { font: f, ..self }),
    {
        Style { font: f, ..self }
    }

    /// The same style, in that color.
    pub fn color(self, c: Option<MarkColor>) -> (r: Style)
        ensures
            r == (Style { color: c, ..self }),
    {
        Style { color: c, ..self }
    }
}

} // verus!
