//! Character classes: where the characters of a password come from.
//!
//! A class is one of four built-in sets or a custom list of characters. In
//! text the built-in classes are written as the tokens `:upper:`, `:lower:`,
//! `:number:` and `:symbol:`; any other text stands for the custom class of its
//! own characters, unless it is empty or begins and ends with a colon.
use crate::choice::{Choice, ChoiceView};
use crate::interval::Interval;
use crate::text::{chars_of, is_word, same_chars, string_of, vec_of};
use vstd::prelude::*;
use vstd::std_specs::cmp::PartialEqSpecImpl;

verus! {

/// The characters of the class `Upper`.
pub const UPPERCASE: &'static str ="ABCDEFGHIJKLMNOPQRSTUVWXYZ";

/// The characters of the class `Lower`.
pub const LOWERCASE: &'static str ="abcdefghijklmnopqrstuvwxyz";

/// The characters of the class `Number`. Zero is left out.
pub const NUMBERS: &'static str ="123456789";

/// The characters of the class `Symbol`: punctuation that needs no escaping
/// in a shell or inside quotes.
pub const SYMBOLS: &'static str ="!@%^&*-_=+:;,.?~";

/// A source of candidate characters.
#[derive(Debug, Eq, Hash)]
pub enum Charset {
    Upper,
    Lower,
    Number,
    Symbol,
    Custom(Vec<char>),
}

/// A character class with its custom characters as a sequence.
pub enum CharsetView {
    Upper,
    Lower,
    Number,
    Symbol,
    Custom(Seq<char>),
}

/// Why a text is not a character class.
#[derive(Debug)]
pub enum CharsetParseError {
    /// The text is empty.
    NoCharset,
    /// The text begins and ends with a colon but is none of the four tokens.
    UnrecognizedPattern(String),
}

/// A `CharsetParseError` with its text as a sequence of characters.
pub enum CharsetParseErrorView {
    NoCharset,
    UnrecognizedPattern(Seq<char>),
}

impl View for Charset {
    type V = CharsetView;

    open spec fn view(&self) -> CharsetView {
        match self {
            Charset::Upper => CharsetView::Upper,
            Charset::Lower => CharsetView::Lower,
            Charset::Number => CharsetView::Number,
            Charset::Symbol => CharsetView::Symbol,
            Charset::Custom(v) => CharsetView::Custom(v@),
        }
    }
}

impl View for CharsetParseError {
    type V = CharsetParseErrorView;

    open spec fn view(&self) -> CharsetParseErrorView {
        match self {
            CharsetParseError::NoCharset => CharsetParseErrorView::NoCharset,
            CharsetParseError::UnrecognizedPattern(s) => CharsetParseErrorView::UnrecognizedPattern(
                s@,
            ),
        }
    }
}

impl CharsetView {
    /// The candidate characters of the class, in order. A custom class keeps
    /// its characters as given, repetitions included.
    pub open spec fn chars(self) -> Seq<char> {
        match self {
            CharsetView::Upper => UPPERCASE@,
            CharsetView::Lower => LOWERCASE@,
            CharsetView::Number => NUMBERS@,
            CharsetView::Symbol => SYMBOLS@,
            CharsetView::Custom(s) => s,
        }
    }

    /// Whether the class has no characters. Only a custom class can be
    /// empty.
    pub open spec fn is_empty(self) -> bool {
        match self {
            CharsetView::Custom(s) => s.len() == 0,
            _ => false,
        }
    }
}

/// A class is empty exactly where it has no candidate characters.
pub proof fn lemma_empty_class(class: CharsetView)
    ensures
        class.is_empty() <==> class.chars().len() == 0,
{
    reveal_strlit("ABCDEFGHIJKLMNOPQRSTUVWXYZ");
    reveal_strlit("abcdefghijklmnopqrstuvwxyz");
    reveal_strlit("123456789");
    reveal_strlit("!@%^&*-_=+:;,.?~");
}

/// The text of a class: its token, or its custom characters.
pub open spec fn charset_text(class: CharsetView) -> Seq<char> {
    match class {
        CharsetView::Upper => ":upper:"@,
        CharsetView::Lower => ":lower:"@,
        CharsetView::Number => ":number:"@,
        CharsetView::Symbol => ":symbol:"@,
        CharsetView::Custom(s) => s,
    }
}

/// What a text means as a class.
pub open spec fn charset_of_text(s: Seq<char>) -> Result<CharsetView, CharsetParseErrorView> {
    if s == ":upper:"@ {
        Ok(CharsetView::Upper)
    } else if s == ":lower:"@ {
        Ok(CharsetView::Lower)
    } else if s == ":number:"@ {
        Ok(CharsetView::Number)
    } else if s == ":symbol:"@ {
        Ok(CharsetView::Symbol)
    } else if s.len() == 0 {
        Err(CharsetParseErrorView::NoCharset)
    } else if s.first() == ':' && s.last() == ':' {
        Err(CharsetParseErrorView::UnrecognizedPattern(s))
    } else {
        Ok(CharsetView::Custom(s))
    }
}

impl Clone for Charset {
    fn clone(&self) -> (r: Self)
        ensures
            r@ == self@,
    {
        match self {
            Charset::Upper => Charset::Upper,
            Charset::Lower => Charset::Lower,
            Charset::Number => Charset::Number,
            Charset::Symbol => Charset::Symbol,
            Charset::Custom(v) => Charset::Custom(vec_of(v.as_slice())),
        }
    }
}

impl PartialEq for Charset {
    fn eq(&self, other: &Self) -> (r: bool) {
        match (self, other) {
            (Charset::Upper, Charset::Upper) => true,
            (Charset::Lower, Charset::Lower) => true,
            (Charset::Number, Charset::Number) => true,
            (Charset::Symbol, Charset::Symbol) => true,
            (Charset::Custom(a), Charset::Custom(b)) => same_chars(a.as_slice(), b.as_slice()),
            _ => false,
        }
    }
}

impl PartialEqSpecImpl for Charset {
    open spec fn obeys_eq_spec() -> bool {
        true
    }

    open spec fn eq_spec(&self, other: &Self) -> bool {
        self@ == other@
    }
}

impl Charset {
    /// The candidate characters of the class.
    pub fn to_charset(&self) -> (v: Vec<char>)
        ensures
            v@ == self@.chars(),
    {
        match self {
            Charset::Upper => chars_of(UPPERCASE),
            Charset::Lower => chars_of(LOWERCASE),
            Charset::Number => chars_of(NUMBERS),
            Charset::Symbol => chars_of(SYMBOLS),
            Charset::Custom(v) => vec_of(v.as_slice()),
        }
    }

    /// Whether the class has no characters.
    pub fn is_empty(&self) -> (r: bool)
        ensures
            r == self@.is_empty(),
    {
        match self {
            Charset::Custom(v) => v.len() == 0,
            _ => false,
        }
    }

    /// The constraint of `size` or more characters of this class.
    pub fn at_least(self, size: usize) -> (r: Choice)
        ensures
            r@ == (ChoiceView { min: size, max: usize::MAX, class: self@ }),
    {
        Choice::at_least(size, self)
    }

    /// The constraint of `size` or fewer characters of this class.
    pub fn at_most(self, size: usize) -> (r: Choice)
        ensures
            r@ == (ChoiceView { min: 0, max: size, class: self@ }),
    {
        Choice::at_most(size, self)
    }

    /// The constraint of exactly `size` characters of this class.
    pub fn exactly(self, size: usize) -> (r: Choice)
        ensures
            r@ == (ChoiceView { min: size, max: size, class: self@ }),
    {
        Choice::exactly(size, self)
    }

    /// The constraint of `min` to `max` characters of this class, where the
    /// bounds are ordered.
    pub fn between(self, min: usize, max: usize) -> (r: Option<Choice>)
        ensures
            min <= max <==> r is Some,
            r is Some ==> r.unwrap()@ == (ChoiceView { min, max, class: self@ }),
    {
        Choice::new(min, max, self)
    }

    /// The constraint that holds this class to `interval`.
    pub fn from_interval(self, interval: Interval) -> (r: Choice)
        ensures
            r@ == (ChoiceView { min: interval@.min, max: interval@.max, class: self@ }),
    {
        Choice::from_interval(interval, self)
    }

    /// Reads a class from characters.
    pub fn parse_chars(s: &[char]) -> (r: Result<Self, CharsetParseError>)
        ensures
            match r {
                Ok(c) => charset_of_text(s@) == Ok::<CharsetView, CharsetParseErrorView>(c@),
                Err(e) => charset_of_text(s@) == Err::<CharsetView, CharsetParseErrorView>(e@),
            },
    {
        if is_word(s, ":upper:") {
            Ok(Charset::Upper)
        } else if is_word(s, ":lower:") {
            Ok(Charset::Lower)
        } else if is_word(s, ":number:") {
            Ok(Charset::Number)
        } else if is_word(s, ":symbol:") {
            Ok(Charset::Symbol)
        } else if s.len() == 0 {
            Err(CharsetParseError::NoCharset)
        } else if s[0] == ':' && s[s.len() - 1] == ':' {
            Err(CharsetParseError::UnrecognizedPattern(string_of(vec_of(s))))
        } else {
            Ok(Charset::Custom(vec_of(s)))
        }
    }

    /// Reads a class from its text.
    pub fn parse(s: &str) -> (r: Result<Self, CharsetParseError>)
        ensures
            match r {
                Ok(c) => charset_of_text(s@) == Ok::<CharsetView, CharsetParseErrorView>(c@),
                Err(e) => charset_of_text(s@) == Err::<CharsetView, CharsetParseErrorView>(e@),
            },
    {
        let chars = chars_of(s);
        Self::parse_chars(chars.as_slice())
    }

    /// The characters of the class's text.
    pub fn render(&self) -> (v: Vec<char>)
        ensures
            v@ == charset_text(self@),
    {
        match self {
            Charset::Upper => chars_of(":upper:"),
            Charset::Lower => chars_of(":lower:"),
            Charset::Number => chars_of(":number:"),
            Charset::Symbol => chars_of(":symbol:"),
            Charset::Custom(v) => vec_of(v.as_slice()),
        }
    }

    /// The class's text.
    pub fn to_string(&self) -> (s: String)
        ensures
            s@ == charset_text(self@),
    {
        string_of(self.render())
    }
}

impl core::str::FromStr for Charset {
    type Err = CharsetParseError;

    fn from_str(s: &str) -> (r: Result<Self, Self::Err>)
        ensures
            match r {
                Ok(c) => charset_of_text(s@) == Ok::<CharsetView, CharsetParseErrorView>(c@),
                Err(e) => charset_of_text(s@) == Err::<CharsetView, CharsetParseErrorView>(e@),
            },
    {
        Charset::parse(s)
    }
}

} // verus!
