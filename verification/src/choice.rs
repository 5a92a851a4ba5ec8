//! Constraints: a character class together with how many of its characters
//! a password holds.
//!
//! During generation a constraint doubles as a budget: every draw lowers both
//! bounds by one, down to zero. In text a constraint is written as its interval,
//! a `|`, and its class.
use crate::charset::{
    charset_of_text, charset_text, lemma_empty_class, Charset, CharsetParseError,
    CharsetParseErrorView, CharsetView,
};
use crate::interval::{
    interval_of_text, interval_text, render_bounds, Interval, IntervalParseError,
    IntervalParseErrorView, IntervalView,
};
use crate::random::pick_char;
use crate::text::{append_chars, chars_of, find, position, string_of, vec_of};
use vstd::prelude::*;
use vstd::std_specs::cmp::PartialEqSpecImpl;
use vstd::std_specs::convert::FromSpecImpl;

verus! {

/// A class and the interval of counts allowed for it.
#[derive(Debug, Eq)]
pub struct Choice {
    min: usize,
    max: usize,
    chars: Charset,
}

/// A constraint as plain data.
pub struct ChoiceView {
    pub min: usize,
    pub max: usize,
    pub class: CharsetView,
}

/// Why a text is not a constraint.
#[derive(Debug)]
pub enum ChoiceParseError {
    /// The text holds no `|`.
    BadFormat(String),
    /// What stands before the first `|` is not an interval.
    BadInterval(IntervalParseError),
    /// What stands after the first `|` is not a class.
    Charset(CharsetParseError),
}

/// A `ChoiceParseError` with its texts as sequences of characters.
pub enum ChoiceParseErrorView {
    BadFormat(Seq<char>),
    BadInterval(IntervalParseErrorView),
    Charset(CharsetParseErrorView),
}

impl View for ChoiceParseError {
    type V = ChoiceParseErrorView;

    open spec fn view(&self) -> ChoiceParseErrorView {
        match self {
            ChoiceParseError::BadFormat(s) => ChoiceParseErrorView::BadFormat(s@),
            ChoiceParseError::BadInterval(e) => ChoiceParseErrorView::BadInterval(e@),
            ChoiceParseError::Charset(e) => ChoiceParseErrorView::Charset(e@),
        }
    }
}

impl View for Choice {
    type V = ChoiceView;

    closed spec fn view(&self) -> ChoiceView {
        ChoiceView { min: self.min, max: self.max, class: self.chars@ }
    }
}

impl ChoiceView {
    /// The interval of the constraint.
    pub open spec fn interval(self) -> IntervalView {
        IntervalView { min: self.min, max: self.max }
    }

    /// Whether more characters may still be drawn.
    pub open spec fn active(self) -> bool {
        self.max > 0
    }

    /// Whether more characters must still be drawn.
    pub open spec fn required(self) -> bool {
        self.min > 0
    }

    /// Whether a draw can yield a character whenever one may be drawn: a
    /// class without characters has an upper bound of zero.
    pub open spec fn drawable(self) -> bool {
        self.max > 0 ==> !self.class.is_empty()
    }

    /// The budget after one draw: both bounds are one lower, but not below
    /// zero. A spent budget stays as it is.
    pub open spec fn spend(self) -> ChoiceView {
        if self.max > 0 {
            ChoiceView {
                min: if self.min > 0 {
                    (self.min - 1) as usize
                } else {
                    0
                },
                max: (self.max - 1) as usize,
                class: self.class,
            }
        } else {
            self
        }
    }

    /// The budget once the required characters are drawn.
    pub open spec fn settled(self) -> ChoiceView {
        ChoiceView { min: 0, max: (self.max - self.min) as usize, class: self.class }
    }
}

/// The text of a constraint.
pub open spec fn choice_text(c: ChoiceView) -> Seq<char> {
    interval_text(c.interval()).push('|') + charset_text(c.class)
}

/// What a text means as a constraint: the first `|` parts the interval from
/// the class. The interval is read first.
pub open spec fn choice_of_text(s: Seq<char>) -> Result<ChoiceView, ChoiceParseErrorView> {
    let bar = find(s, '|');
    if bar == s.len() {
        Err(ChoiceParseErrorView::BadFormat(s))
    } else {
        match interval_of_text(s.take(bar)) {
            Err(e) => Err(ChoiceParseErrorView::BadInterval(e)),
            Ok(iv) => match charset_of_text(s.skip(bar + 1)) {
                Err(e) => Err(ChoiceParseErrorView::Charset(e)),
                Ok(class) => Ok(ChoiceView { min: iv.min, max: iv.max, class }),
            },
        }
    }
}

impl Clone for Choice {
    fn clone(&self) -> (r: Self)
        ensures
            r@ == self@,
    {
        proof {
            use_type_invariant(self);
        }
        Choice { min: self.min, max: self.max, chars: self.chars.clone() }
    }
}

/// Two constraints count as the same when they are about the same class,
/// whatever their intervals.
impl PartialEq for Choice {
    fn eq(&self, other: &Self) -> (r: bool) {
        self.chars == other.chars
    }
}

impl PartialEqSpecImpl for Choice {
    open spec fn obeys_eq_spec() -> bool {
        true
    }

    open spec fn eq_spec(&self, other: &Self) -> bool {
        self@.class == other@.class
    }
}

impl Choice {
    /// The bounds are ordered.
    #[verifier::type_invariant]
    pub open spec fn ordered(self) -> bool {
        self@.min <= self@.max
    }

    /// The constraint from `min` to `max` on `chars`, where the bounds are
    /// ordered.
    pub fn new(min: usize, max: usize, chars: Charset) -> (r: Option<Self>)
        ensures
            min <= max <==> r is Some,
            r is Some ==> r.unwrap()@ == (ChoiceView { min, max, class: chars@ }),
    {
        if max >= min {
            Some(Self { min, max, chars })
        } else {
            None
        }
    }

    /// The constraint that holds `chars` to `interval`.
    pub fn from_interval(interval: Interval, chars: Charset) -> (r: Self)
        ensures
            r@ == (ChoiceView { min: interval@.min, max: interval@.max, class: chars@ }),
    {
        Self { min: interval.min(), max: interval.max(), chars }
    }

    /// Exactly `count` characters of `chars`.
    pub fn exactly(count: usize, chars: Charset) -> (r: Self)
        ensures
            r@ == (ChoiceView { min: count, max: count, class: chars@ }),
    {
        Self { min: count, max: count, chars }
    }

    /// `count` or more characters of `chars`.
    pub fn at_least(count: usize, chars: Charset) -> (r: Self)
        ensures
            r@ == (ChoiceView { min: count, max: usize::MAX, class: chars@ }),
    {
        Self { min: count, max: usize::MAX, chars }
    }

    /// `count` or fewer characters of `chars`.
    pub fn at_most(count: usize, chars: Charset) -> (r: Self)
        ensures
            r@ == (ChoiceView { min: 0, max: count, class: chars@ }),
    {
        Self { min: usize::MIN, max: count, chars }
    }

    /// The lower bound.
    pub fn min(&self) -> (r: usize)
        ensures
            r == self@.min,
            r <= self@.max,
    {
        proof {
            use_type_invariant(self);
        }
        self.min
    }

    /// The upper bound.
    pub fn max(&self) -> (r: usize)
        ensures
            r == self@.max,
            r >= self@.min,
    {
        proof {
            use_type_invariant(self);
        }
        self.max
    }

    /// The class.
    pub fn chars(&self) -> (r: &Charset)
        ensures
            r@ == self@.class,
    {
        &self.chars
    }

    /// Whether more characters may still be drawn.
    pub fn active(&self) -> (r: bool)
        ensures
            r == self@.active(),
    {
        self.max > 0
    }

    /// Whether more characters must still be drawn.
    pub fn required(&self) -> (r: bool)
        ensures
            r == self@.required(),
    {
        self.min > 0
    }

    /// Draws one character. While the budget is active, the draw spends one
    /// unit of it and yields a character of the class, or nothing where the
    /// class has no characters. A spent budget yields nothing.
    pub fn next(&mut self) -> (r: Option<char>)
        ensures
            final(self)@ == old(self)@.spend(),
            r is Some <==> old(self)@.active() && !old(self)@.class.is_empty(),
            r is Some ==> old(self)@.class.chars().contains(r.unwrap()),
    {
        proof {
            use_type_invariant(&*self);
            lemma_empty_class(self@.class);
        }
        if self.active() {
            if self.min > 0 {
                self.min -= 1;
            }
            if self.max > 0 {
                self.max -= 1;
            }
            let pool = self.chars.to_charset();
            pick_char(&pool)
        } else {
            None
        }
    }

    /// Draws until nothing more is required, and returns what was drawn: as
    /// many characters of the class as the lower bound asked for. A class
    /// without characters yields none; its budget is spent all the same.
    pub fn get_required(&mut self) -> (res: Vec<char>)
        ensures
            final(self)@ == old(self)@.settled(),
            res@.len() == (if old(self)@.class.is_empty() {
                0
            } else {
                old(self)@.min
            }),
            forall|i: int| 0 <= i < res@.len() ==> old(self)@.class.chars().contains(#[trigger] res@[i]),
    {
        proof {
            use_type_invariant(&*self);
        }
        let mut res: Vec<char> = Vec::new();
        while self.required()
            invariant
                self@.class == old(self)@.class,
                self@.min <= old(self)@.min,
                self@.min <= self@.max,
                old(self)@.min <= old(self)@.max,
                self@.max - self@.min == old(self)@.max - old(self)@.min,
                res@.len() == (if old(self)@.class.is_empty() {
                    0
                } else {
                    old(self)@.min - self@.min
                }),
                forall|i: int|
                    0 <= i < res@.len() ==> old(self)@.class.chars().contains(#[trigger] res@[i]),
            decreases self@.min,
        {
            if let Some(c) = self.next() {
                res.push(c);
            }
        }
        res
    }

    /// Reads a constraint from characters.
    pub fn parse_chars(s: &[char]) -> (r: Result<Self, ChoiceParseError>)
        ensures
            match r {
                Ok(c) => choice_of_text(s@) == Ok::<ChoiceView, ChoiceParseErrorView>(c@),
                Err(e) => choice_of_text(s@) == Err::<ChoiceView, ChoiceParseErrorView>(e@),
            },
    {
        let bar = position(s, '|');
        if bar == s.len() {
            return Err(ChoiceParseError::BadFormat(string_of(vec_of(s))));
        }
        assert(s@.take(bar as int) == s@.subrange(0, bar as int));
        assert(s@.skip(bar + 1) == s@.subrange(bar + 1, s@.len() as int));
        let interval = match Interval::parse_chars(vstd::slice::slice_subrange(s, 0, bar)) {
            Ok(iv) => iv,
            Err(e) => {
                return Err(ChoiceParseError::BadInterval(e));
            },
        };
        let chars = match Charset::parse_chars(vstd::slice::slice_subrange(s, bar + 1, s.len())) {
            Ok(c) => c,
            Err(e) => {
                return Err(ChoiceParseError::Charset(e));
            },
        };
        Ok(Choice::from_interval(interval, chars))
    }

    /// Reads a constraint from its text.
    pub fn parse(s: &str) -> (r: Result<Self, ChoiceParseError>)
        ensures
            match r {
                Ok(c) => choice_of_text(s@) == Ok::<ChoiceView, ChoiceParseErrorView>(c@),
                Err(e) => choice_of_text(s@) == Err::<ChoiceView, ChoiceParseErrorView>(e@),
            },
    {
        let chars = chars_of(s);
        Self::parse_chars(chars.as_slice())
    }

    /// The characters of the constraint's text.
    pub fn render(&self) -> (v: Vec<char>)
        ensures
            v@ == choice_text(self@),
    {
        let mut v = render_bounds(self.min, self.max);
        v.push('|');
        let class = self.chars.render();
        append_chars(&mut v, class.as_slice());
        v
    }

    /// The constraint's text.
    pub fn to_string(&self) -> (s: String)
        ensures
            s@ == choice_text(self@),
    {
        string_of(self.render())
    }
}

impl core::str::FromStr for Choice {
    type Err = ChoiceParseError;

    fn from_str(s: &str) -> (r: Result<Self, Self::Err>)
        ensures
            match r {
                Ok(c) => choice_of_text(s@) == Ok::<ChoiceView, ChoiceParseErrorView>(c@),
                Err(e) => choice_of_text(s@) == Err::<ChoiceView, ChoiceParseErrorView>(e@),
            },
    {
        Choice::parse(s)
    }
}

// ---------------------------------------------------------------------------
// Sets of constraints
// ---------------------------------------------------------------------------

/// A set of constraints with at most one constraint for each class. The
/// constraints are kept in the order in which their classes first came in.
#[derive(Debug, Eq)]
pub struct Choices {
    choices: Vec<Choice>,
}

/// No two entries are about the same class.
pub open spec fn distinct(entries: Seq<ChoiceView>) -> bool {
    forall|i: int, j: int| 0 <= i < j < entries.len() ==> entries[i].class != entries[j].class
}

/// The bounds of every entry are ordered.
pub open spec fn ordered(entries: Seq<ChoiceView>) -> bool {
    forall|i: int| 0 <= i < entries.len() ==> (#[trigger] entries[i]).min <= entries[i].max
}

/// What holds of the entries of every set of constraints: no two are about
/// the same class, and the bounds of each are ordered.
pub open spec fn well_formed(entries: Seq<ChoiceView>) -> bool {
    distinct(entries) && ordered(entries)
}

/// The first index at or after `i` whose entry is about `class`, or the
/// number of entries.
pub open spec fn slot_from(entries: Seq<ChoiceView>, class: CharsetView, i: int) -> int
    decreases entries.len() - i,
{
    if 0 <= i < entries.len() && entries[i].class != class {
        slot_from(entries, class, i + 1)
    } else {
        i
    }
}

/// The index of the entry about `class`, or the number of entries where
/// there is none.
pub open spec fn slot(entries: Seq<ChoiceView>, class: CharsetView) -> int {
    slot_from(entries, class, 0)
}

/// The entries with `c` put in: `c` takes the place of the entry about its
/// class, or comes last where there is none.
pub open spec fn put(entries: Seq<ChoiceView>, c: ChoiceView) -> Seq<ChoiceView> {
    let k = slot(entries, c.class);
    if k < entries.len() {
        entries.update(k, c)
    } else {
        entries.push(c)
    }
}

/// The entries with each of `more` put in, in order.
pub open spec fn put_all(entries: Seq<ChoiceView>, more: Seq<ChoiceView>) -> Seq<ChoiceView>
    decreases more.len(),
{
    if more.len() == 0 {
        entries
    } else {
        put(put_all(entries, more.drop_last()), more.last())
    }
}

/// Whether every class with an entry in `a` has one in `b`.
pub open spec fn covered(a: Seq<ChoiceView>, b: Seq<ChoiceView>) -> bool {
    forall|i: int| 0 <= i < a.len() ==> slot(b, #[trigger] a[i].class) < b.len()
}

/// The text of a set of constraints: each constraint's text after a `//`.
pub open spec fn choices_text(entries: Seq<ChoiceView>) -> Seq<char>
    decreases entries.len(),
{
    if entries.len() == 0 {
        Seq::empty()
    } else {
        choices_text(entries.drop_last()).push('/').push('/') + choice_text(entries.last())
    }
}

pub proof fn lemma_slot_from(entries: Seq<ChoiceView>, class: CharsetView, i: int)
    requires
        0 <= i <= entries.len(),
    ensures
        i <= slot_from(entries, class, i) <= entries.len(),
        slot_from(entries, class, i) < entries.len() ==> entries[slot_from(entries, class, i)].class
            == class,
        forall|j: int| i <= j < slot_from(entries, class, i) ==> entries[j].class != class,
    decreases entries.len() - i,
{
    if i < entries.len() && entries[i].class != class {
        lemma_slot_from(entries, class, i + 1);
    }
}

/// Putting a constraint in keeps the entries well formed.
pub proof fn lemma_put_well_formed(entries: Seq<ChoiceView>, c: ChoiceView)
    requires
        well_formed(entries),
        c.min <= c.max,
    ensures
        well_formed(put(entries, c)),
{
    lemma_slot_from(entries, c.class, 0);
}

/// Of two constraints on one class that are put in one after the other, the
/// second wins: the entries are as if the first had never been put in. They
/// hold the second constraint, and no other entry about its class.
pub proof fn lemma_last_put_wins(entries: Seq<ChoiceView>, a: ChoiceView, b: ChoiceView)
    requires
        distinct(entries),
        a.class == b.class,
    ensures
        put(put(entries, a), b) == put(entries, b),
        slot(put(entries, b), b.class) < put(entries, b).len(),
        put(entries, b)[slot(put(entries, b), b.class)] == b,
        forall|j: int|
            0 <= j < put(entries, b).len() && j != slot(put(entries, b), b.class) ==> put(
                entries,
                b,
            )[j].class != b.class,
{
    let k = slot(entries, a.class);
    let once = put(entries, a);
    let last = put(entries, b);
    lemma_slot_from(entries, a.class, 0);
    lemma_slot_from(once, b.class, 0);
    lemma_slot_from(last, b.class, 0);
    assert(once[k].class == b.class);
    assert(forall|j: int| 0 <= j < k ==> once[j] == entries[j]);
    assert(slot(once, b.class) == k);
    assert(put(once, b) =~= last);
    assert(last[k] == b);
    assert(forall|j: int| 0 <= j < k ==> last[j] == entries[j]);
    assert(slot(last, b.class) == k);
}

impl View for Choices {
    type V = Seq<ChoiceView>;

    closed spec fn view(&self) -> Seq<ChoiceView> {
        self.choices@.map_values(|c: Choice| c@)
    }
}

impl From<Vec<Choice>> for Choices {
    /// The set made by putting in each constraint of `value` in turn.
    fn from(value: Vec<Choice>) -> (r: Self)
        ensures
            r@ == put_all(Seq::empty(), value@.map_values(|c: Choice| c@)),
    {
        let mut r = Self::new();
        let ghost all = value@.map_values(|c: Choice| c@);
        let mut k: usize = 0;
        while k < value.len()
            invariant
                k <= value.len(),
                all == value@.map_values(|c: Choice| c@),
                r@ == put_all(Seq::empty(), all.take(k as int)),
            decreases value.len() - k,
        {
            let c = value[k].clone();
            proof {
                let t = all.take(k + 1);
                assert(t.drop_last() == all.take(k as int));
                assert(t.last() == c@);
            }
            r.push(c);
            k += 1;
        }
        assert(all.take(value.len() as int) == all);
        r
    }
}

/// What `from` gives is stated over the entries of the result: two sets with
/// the same entries need not be the same value.
impl FromSpecImpl<Vec<Choice>> for Choices {
    open spec fn obeys_from_spec() -> bool {
        false
    }

    open spec fn from_spec(v: Vec<Choice>) -> Self {
        arbitrary()
    }
}

impl Default for Choices {
    fn default() -> (r: Self)
        ensures
            r@ == Seq::<ChoiceView>::empty(),
    {
        Self::new()
    }
}

impl Clone for Choices {
    fn clone(&self) -> (r: Self)
        ensures
            r@ == self@,
    {
        proof {
            use_type_invariant(self);
        }
        let mut copy: Vec<Choice> = Vec::new();
        let mut i: usize = 0;
        while i < self.choices.len()
            invariant
                i <= self.choices.len(),
                copy@.len() == i,
                forall|j: int| 0 <= j < i ==> (#[trigger] copy@[j])@ == self.choices@[j]@,
            decreases self.choices.len() - i,
        {
            copy.push(self.choices[i].clone());
            i += 1;
        }
        assert(copy@.map_values(|c: Choice| c@) == self.choices@.map_values(|c: Choice| c@));
        Choices { choices: copy }
    }
}

/// Two sets count as the same when they constrain the same classes.
impl PartialEq for Choices {
    fn eq(&self, other: &Self) -> (r: bool) {
        if self.choices.len() != other.choices.len() {
            return false;
        }
        let mut i: usize = 0;
        while i < self.choices.len()
            invariant
                i <= self.choices.len(),
                forall|j: int| 0 <= j < i ==> slot(other@, #[trigger] self@[j].class) < other@.len(),
            decreases self.choices.len() - i,
        {
            if other.find(&self.choices[i].chars) == other.choices.len() {
                assert(self@[i as int].class == self.choices@[i as int]@.class);
                return false;
            }
            i += 1;
        }
        true
    }
}

impl PartialEqSpecImpl for Choices {
    open spec fn obeys_eq_spec() -> bool {
        true
    }

    open spec fn eq_spec(&self, other: &Self) -> bool {
        self@.len() == other@.len() && covered(self@, other@)
    }
}

impl Choices {
    /// No two constraints are about the same class, and the bounds of each
    /// are ordered.
    #[verifier::type_invariant]
    pub open spec fn sound(self) -> bool {
        well_formed(self@)
    }

    /// The empty set.
    pub fn new() -> (r: Self)
        ensures
            r@ == Seq::<ChoiceView>::empty(),
    {
        let r = Self { choices: Vec::new() };
        assert(r@ == Seq::<ChoiceView>::empty());
        r
    }

    /// How many constraints there are.
    pub fn len(&self) -> (n: usize)
        ensures
            n == self@.len(),
    {
        self.choices.len()
    }

    /// The constraints, in order.
    pub fn as_slice(&self) -> (r: &[Choice])
        ensures
            r@.len() == self@.len(),
            forall|i: int| 0 <= i < r@.len() ==> (#[trigger] r@[i])@ == self@[i],
            well_formed(self@),
    {
        proof {
            use_type_invariant(self);
        }
        self.choices.as_slice()
    }

    /// The constraints, in order.
    pub fn into_vec(self) -> (r: Vec<Choice>)
        ensures
            r@.len() == self@.len(),
            forall|i: int| 0 <= i < r@.len() ==> (#[trigger] r@[i])@ == self@[i],
            well_formed(self@),
    {
        proof {
            use_type_invariant(&self);
        }
        self.choices
    }

    /// Where the constraint on `chars` stands.
    pub fn find(&self, chars: &Charset) -> (k: usize)
        ensures
            k == slot(self@, chars@),
            k <= self@.len(),
    {
        let mut i: usize = 0;
        while i < self.choices.len() && !(self.choices[i].chars == *chars)
            invariant
                i <= self.choices.len(),
                slot_from(self@, chars@, 0) == slot_from(self@, chars@, i as int),
            decreases self.choices.len() - i,
        {
            i += 1;
        }
        i
    }

    /// Puts a constraint in. It takes the place of the constraint on its
    /// class, where there is one.
    pub fn push(&mut self, choice: Choice)
        ensures
            final(self)@ == put(old(self)@, choice@),
    {
        proof {
            use_type_invariant(&*self);
            use_type_invariant(&choice);
            lemma_put_well_formed(self@, choice@);
        }
        let k = self.find(&choice.chars);
        let mut entries: Vec<Choice> = Vec::new();
        core::mem::swap(&mut entries, &mut self.choices);
        if k < entries.len() {
            entries[k] = choice;
        } else {
            entries.push(choice);
        }
        assert(entries@.map_values(|c: Choice| c@) == put(old(self)@, choice@));
        self.choices = entries;
    }

    /// The characters of the set's text.
    pub fn render(&self) -> (v: Vec<char>)
        ensures
            v@ == choices_text(self@),
    {
        let mut v: Vec<char> = Vec::new();
        let mut i: usize = 0;
        while i < self.choices.len()
            invariant
                i <= self.choices.len(),
                v@ == choices_text(self@.take(i as int)),
            decreases self.choices.len() - i,
        {
            proof {
                let t = self@.take(i + 1);
                assert(t.drop_last() == self@.take(i as int));
                assert(t.last() == self.choices@[i as int]@);
            }
            v.push('/');
            v.push('/');
            let one = self.choices[i].render();
            append_chars(&mut v, one.as_slice());
            i += 1;
        }
        assert(self@.take(self.choices.len() as int) == self@);
        v
    }

    /// The set's text.
    pub fn to_string(&self) -> (s: String)
        ensures
            s@ == choices_text(self@),
    {
        string_of(self.render())
    }
}

} // verus!
