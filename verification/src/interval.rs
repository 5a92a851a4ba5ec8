//! Count intervals: how many characters a class may contribute.
//!
//! An interval is an inclusive range `[min, max]`. The largest `usize` as upper
//! bound stands for "no upper bound", zero as lower bound for "no lower bound".
//!
//! In text an interval is written in one of four forms: `N` (exactly `N`),
//! `N+` (at least `N`), `N-` (at most `N`) and `A-B` (from `A` to `B`).
use crate::text::{
    append_chars, chars_of, decimal_text, find, number_of, parse_number, position, render_number,
    string_of, trim, trimmed, vec_of,
};
use vstd::prelude::*;

verus! {

/// An inclusive range of counts whose bounds are ordered.
#[derive(Debug, Clone, Copy, PartialEq, Eq, Structural)]
pub struct Interval {
    min: usize,
    max: usize,
}

/// The two bounds of an interval, as plain data.
pub struct IntervalView {
    pub min: usize,
    pub max: usize,
}

/// Why a text is not an interval.
#[derive(Debug)]
pub enum IntervalParseError {
    /// The text has the form `A-B` with `A` above `B`.
    BadBounds(usize, usize),
    /// The text, given without surrounding blanks, has none of the four forms.
    ImproperFormat(String),
}

/// An `IntervalParseError` with its text as a sequence of characters.
pub enum IntervalParseErrorView {
    BadBounds(usize, usize),
    ImproperFormat(Seq<char>),
}

impl View for IntervalParseError {
    type V = IntervalParseErrorView;

    open spec fn view(&self) -> IntervalParseErrorView {
        match self {
            IntervalParseError::BadBounds(a, b) => IntervalParseErrorView::BadBounds(*a, *b),
            IntervalParseError::ImproperFormat(s) => IntervalParseErrorView::ImproperFormat(s@),
        }
    }
}

impl View for Interval {
    type V = IntervalView;

    closed spec fn view(&self) -> IntervalView {
        IntervalView { min: self.min, max: self.max }
    }
}

/// The text of an interval, in the shortest of the four forms that reads back
/// as the same interval.
pub open spec fn interval_text(iv: IntervalView) -> Seq<char> {
    if iv.min == iv.max {
        decimal_text(iv.min as nat)
    } else if iv.min == 0 {
        decimal_text(iv.max as nat).push('-')
    } else if iv.max == usize::MAX {
        decimal_text(iv.min as nat).push('+')
    } else {
        decimal_text(iv.min as nat).push('-') + decimal_text(iv.max as nat)
    }
}

/// What a text means as an interval. Surrounding blanks do not count. A
/// final `+` makes the number before it a lower bound; otherwise the first `-`
/// either ends the text, making the number before it an upper bound, or parts
/// the two bounds of a range; without either the text is one exact count.
pub open spec fn interval_of_text(s: Seq<char>) -> Result<IntervalView, IntervalParseErrorView> {
    let t = trimmed(s);
    let dash = find(t, '-');
    let improper = Err(IntervalParseErrorView::ImproperFormat(t));
    if t.len() > 0 && t.last() == '+' {
        match number_of(t.drop_last()) {
            Some(n) => Ok(IntervalView { min: n, max: usize::MAX }),
            None => improper,
        }
    } else if dash == t.len() {
        match number_of(t) {
            Some(n) => Ok(IntervalView { min: n, max: n }),
            None => improper,
        }
    } else if dash + 1 == t.len() {
        match number_of(t.take(dash)) {
            Some(n) => Ok(IntervalView { min: 0, max: n }),
            None => improper,
        }
    } else {
        match (number_of(t.take(dash)), number_of(t.skip(dash + 1))) {
            (Some(a), Some(b)) => if a <= b {
                Ok(IntervalView { min: a, max: b })
            } else {
                Err(IntervalParseErrorView::BadBounds(a, b))
            },
            _ => improper,
        }
    }
}

/// The characters of the text of the interval from `min` to `max`.
pub fn render_bounds(min: usize, max: usize) -> (v: Vec<char>)
    ensures
        v@ == interval_text(IntervalView { min, max }),
{
    if min == max {
        render_number(min)
    } else if min == usize::MIN {
        let mut v = render_number(max);
        v.push('-');
        v
    } else if max == usize::MAX {
        let mut v = render_number(min);
        v.push('+');
        v
    } else {
        let mut v = render_number(min);
        v.push('-');
        let upper = render_number(max);
        append_chars(&mut v, upper.as_slice());
        v
    }
}

impl Interval {
    /// The bounds are ordered.
    #[verifier::type_invariant]
    pub open spec fn ordered(self) -> bool {
        self@.min <= self@.max
    }

    /// The interval from `min` to `max`, where they are ordered.
    pub fn new(min: usize, max: usize) -> (r: Option<Self>)
        ensures
            min <= max <==> r is Some,
            r is Some ==> r.unwrap()@ == (IntervalView { min, max }),
    {
        if min <= max {
            Some(Self { min, max })
        } else {
            None
        }
    }

    /// `size` or more.
    pub fn at_least(size: usize) -> (r: Self)
        ensures
            r@ == (IntervalView { min: size, max: usize::MAX }),
    {
        Self { min: size, max: usize::MAX }
    }

    /// `size` or fewer.
    pub fn at_most(size: usize) -> (r: Self)
        ensures
            r@ == (IntervalView { min: 0, max: size }),
    {
        Self { min: usize::MIN, max: size }
    }

    /// Exactly `size`.
    pub fn exactly(size: usize) -> (r: Self)
        ensures
            r@ == (IntervalView { min: size, max: size }),
    {
        Self { min: size, max: size }
    }

    /// The interval between `a` and `b`, whichever is larger.
    pub fn safe(a: usize, b: usize) -> (r: Self)
        ensures
            r@ == (if a <= b {
                IntervalView { min: a, max: b }
            } else {
                IntervalView { min: b, max: a }
            }),
    {
        if a <= b {
            Self { min: a, max: b }
        } else {
            Self { min: b, max: a }
        }
    }

    /// The lower bound.
    pub fn min(&self) -> (r: usize)
        ensures
            r == self@.min,
            r <= self@.max,
    {
        proof {
            use_type_invariant(self);
        }
        self.min
    }

    /// The upper bound.
    pub fn max(&self) -> (r: usize)
        ensures
            r == self@.max,
            r >= self@.min,
    {
        proof {
            use_type_invariant(self);
        }
        self.max
    }

    /// Reads an interval from characters.
    pub fn parse_chars(s: &[char]) -> (r: Result<Self, IntervalParseError>)
        ensures
            match r {
                Ok(iv) => interval_of_text(s@) == Ok::<IntervalView, IntervalParseErrorView>(iv@),
                Err(e) => interval_of_text(s@) == Err::<IntervalView, IntervalParseErrorView>(e@),
            },
    {
        let t = trim(s);
        let n = t.len();
        let dash = position(t, '-');
        if n > 0 && t[n - 1] == '+' {
            assert(t@.drop_last() == t@.subrange(0, n - 1));
            match parse_number(vstd::slice::slice_subrange(t, 0, n - 1)) {
                Some(a) => Ok(Self { min: a, max: usize::MAX }),
                None => Err(IntervalParseError::ImproperFormat(string_of(vec_of(t)))),
            }
        } else if dash == n {
            match parse_number(t) {
                Some(a) => Ok(Self { min: a, max: a }),
                None => Err(IntervalParseError::ImproperFormat(string_of(vec_of(t)))),
            }
        } else if dash + 1 == n {
            assert(t@.take(dash as int) == t@.subrange(0, dash as int));
            match parse_number(vstd::slice::slice_subrange(t, 0, dash)) {
                Some(a) => Ok(Self { min: 0, max: a }),
                None => Err(IntervalParseError::ImproperFormat(string_of(vec_of(t)))),
            }
        } else {
            assert(t@.take(dash as int) == t@.subrange(0, dash as int));
            assert(t@.skip(dash + 1) == t@.subrange(dash + 1, n as int));
            let first = parse_number(vstd::slice::slice_subrange(t, 0, dash));
            let second = parse_number(vstd::slice::slice_subrange(t, dash + 1, n));
            match (first, second) {
                (Some(a), Some(b)) => if a <= b {
                    Ok(Self { min: a, max: b })
                } else {
                    Err(IntervalParseError::BadBounds(a, b))
                },
                _ => Err(IntervalParseError::ImproperFormat(string_of(vec_of(t)))),
            }
        }
    }

    /// Reads an interval from its text.
    pub fn parse(s: &str) -> (r: Result<Self, IntervalParseError>)
        ensures
            match r {
                Ok(iv) => interval_of_text(s@) == Ok::<IntervalView, IntervalParseErrorView>(iv@),
                Err(e) => interval_of_text(s@) == Err::<IntervalView, IntervalParseErrorView>(e@),
            },
    {
        let chars = chars_of(s);
        Self::parse_chars(chars.as_slice())
    }

    /// The characters of the interval's text.
    pub fn render(&self) -> (v: Vec<char>)
        ensures
            v@ == interval_text(self@),
    {
        render_bounds(self.min, self.max)
    }

    /// The interval's text.
    pub fn to_string(&self) -> (s: String)
        ensures
            s@ == interval_text(self@),
    {
        string_of(self.render())
    }
}

impl core::str::FromStr for Interval {
    type Err = IntervalParseError;

    fn from_str(s: &str) -> (r: Result<Self, Self::Err>)
        ensures
            match r {
                Ok(iv) => interval_of_text(s@) == Ok::<IntervalView, IntervalParseErrorView>(iv@),
                Err(e) => interval_of_text(s@) == Err::<IntervalView, IntervalParseErrorView>(e@),
            },
    {
        Interval::parse(s)
    }
}

} // verus!
