//! Password specifications: a length and a set of constraints, and the
//! generation of a password that meets them.
use crate::charset::{Charset, CharsetView};
use crate::choice::{
    choice_of_text, choices_text, covered, lemma_put_well_formed, lemma_slot_from, put,
    slot_from, well_formed, Choice, ChoiceParseError, ChoiceParseErrorView, ChoiceView, Choices,
};
use crate::draw::{
    alone, drawn_from, is_draw, lemma_flatten_empty, lemma_flatten_extend, lemma_maximum_kept,
    lemma_minimum_met, lemma_total_max_remove, lemma_total_max_update, lemma_totals_bounds,
    occurrences, saturated, total_max, total_min, within,
};
use crate::interval::Interval;
use crate::random::{pick_index, shuffle};
use crate::text::{
    append_chars, chars_of, decimal_text, parse_signed_number, render_number, signed_number_of,
    string_of, trim_start, trimmed_start, vec_of,
};
use vstd::prelude::*;
use vstd::seq_lib::lemma_multiset_commutative;
use vstd::std_specs::cmp::PartialEqSpecImpl;

verus! {

/// The length that a specification starts with.
pub const DEFAULT_LENGTH: usize = 32;

/// What a password has to look like: how long it is, and how many characters
/// of which class it holds.
#[derive(Debug, Eq)]
pub struct PasswordSpec {
    length: usize,
    choices: Choices,
}

/// A specification as plain data: its length and its constraints in order.
pub struct PasswordSpecView {
    pub length: usize,
    pub choices: Seq<ChoiceView>,
}

impl View for PasswordSpec {
    type V = PasswordSpecView;

    closed spec fn view(&self) -> PasswordSpecView {
        PasswordSpecView { length: self.length, choices: self.choices@ }
    }
}

impl PasswordSpecView {
    /// The specification with another length.
    pub open spec fn resized(self, length: usize) -> PasswordSpecView {
        PasswordSpecView { length, choices: self.choices }
    }

    /// The specification with `c` put in: `c` takes the place of the
    /// constraint on its class, or is added where there is none.
    pub open spec fn with(self, c: ChoiceView) -> PasswordSpecView {
        PasswordSpecView { length: self.length, choices: put(self.choices, c) }
    }

    /// Whether some password meets the specification: the length is no less
    /// than the lower bounds together and no more than the upper bounds
    /// together, both sums saturating.
    pub open spec fn feasible(self) -> bool {
        saturated(total_min(self.choices)) <= self.length <= saturated(total_max(self.choices))
    }

    /// Whether every class that may be drawn from has a character.
    pub open spec fn drawable(self) -> bool {
        forall|i: int| 0 <= i < self.choices.len() ==> (#[trigger] self.choices[i]).drawable()
    }
}

/// Why a text is not a specification.
#[derive(Debug)]
pub enum PasswordParseError {
    /// The text holds no `//`, so that nothing in it is marked as the length.
    ImproperFormat,
    /// What stands before the first `//` is not a length.
    InvalidLength(String),
    /// An interval could not be read.
    BadInterval(String),
    /// A class could not be read.
    BadCharset(String),
    /// One of the groups after the length is not a constraint.
    BadChoice(ChoiceParseError),
}

/// A `PasswordParseError` with its texts as sequences of characters.
pub enum PasswordParseErrorView {
    ImproperFormat,
    InvalidLength(Seq<char>),
    BadInterval(Seq<char>),
    BadCharset(Seq<char>),
    BadChoice(ChoiceParseErrorView),
}

impl View for PasswordParseError {
    type V = PasswordParseErrorView;

    open spec fn view(&self) -> PasswordParseErrorView {
        match self {
            PasswordParseError::ImproperFormat => PasswordParseErrorView::ImproperFormat,
            PasswordParseError::InvalidLength(s) => PasswordParseErrorView::InvalidLength(s@),
            PasswordParseError::BadInterval(s) => PasswordParseErrorView::BadInterval(s@),
            PasswordParseError::BadCharset(s) => PasswordParseErrorView::BadCharset(s@),
            PasswordParseError::BadChoice(e) => PasswordParseErrorView::BadChoice(e@),
        }
    }
}

// ---------------------------------------------------------------------------
// The textual notation
//
//     LENGTH '//' ( INTERVAL '|' CLASS ( '//' INTERVAL '|' CLASS )* '//'? )?
//
// The custom characters of a class may be anything that does not make the
// text read otherwise: they are not empty, they do not both begin and end
// with a colon, and no two slashes stand side by side in them.
// ---------------------------------------------------------------------------

/// The text of a specification: its length, then each constraint after a
/// `//`. A specification without constraints ends in `//`.
pub open spec fn spec_text(spec: PasswordSpecView) -> Seq<char> {
    if spec.choices.len() == 0 {
        decimal_text(spec.length as nat).push('/').push('/')
    } else {
        decimal_text(spec.length as nat) + choices_text(spec.choices)
    }
}

/// Whether a `//` stands at index `i` of `s`.
pub open spec fn pair_at(s: Seq<char>, i: int) -> bool {
    0 <= i && i + 1 < s.len() && s[i] == '/' && s[i + 1] == '/'
}

/// The first index at or after `i` at which a `//` stands, or the length of
/// `s`.
pub open spec fn find_pair_from(s: Seq<char>, i: int) -> int
    decreases s.len() - i,
{
    if 0 <= i < s.len() && !pair_at(s, i) {
        find_pair_from(s, i + 1)
    } else {
        i
    }
}

/// Whether the group that begins at `start` is closed just before index `i`:
/// a `//` of the group's own ends there and no further `/` follows it.
pub open spec fn closes(s: Seq<char>, start: int, i: int) -> bool {
    start + 2 <= i < s.len() && pair_at(s, i - 2) && s[i] != '/'
}

/// Where the reading of the group that begins at `start` stops, looking from
/// `i` on: just after the `//` that closes the group, or at the end of `s`.
pub open spec fn group_stop(s: Seq<char>, start: int, i: int) -> int
    decreases s.len() - i,
{
    if 0 <= i < s.len() && !closes(s, start, i) {
        group_stop(s, start, i + 1)
    } else {
        i
    }
}

/// A group as it was read, without the `//` that may end it.
pub open spec fn unclosed(chunk: Seq<char>) -> Seq<char> {
    if pair_at(chunk, chunk.len() - 2) {
        chunk.take(chunk.len() - 2)
    } else {
        chunk
    }
}

/// The reading of a group stops within the text, and past the group's first
/// character.
pub proof fn lemma_group_stop(s: Seq<char>, start: int, i: int)
    requires
        0 <= start <= i <= s.len(),
    ensures
        i <= group_stop(s, start, i) <= s.len(),
        start < s.len() && i == start ==> start < group_stop(s, start, i),
    decreases s.len() - i,
{
    if i < s.len() && !closes(s, start, i) {
        lemma_group_stop(s, start, i + 1);
    }
}

/// At what `find_pair_from` finds a `//` stands, and none between `i` and
/// there.
pub proof fn lemma_find_pair_from(s: Seq<char>, i: int)
    requires
        0 <= i <= s.len(),
    ensures
        i <= find_pair_from(s, i) <= s.len(),
        find_pair_from(s, i) < s.len() ==> pair_at(s, find_pair_from(s, i)),
        forall|j: int| i <= j < find_pair_from(s, i) ==> !pair_at(s, j),
    decreases s.len() - i,
{
    if i < s.len() && !pair_at(s, i) {
        lemma_find_pair_from(s, i + 1);
    }
}

/// What the groups of `s` from `start` on mean, put one after the other into
/// `acc`. The first group that is not a constraint decides.
pub open spec fn groups_of_text(s: Seq<char>, start: int, acc: Seq<ChoiceView>) -> Result<
    Seq<ChoiceView>,
    PasswordParseErrorView,
>
    decreases s.len() - start,
{
    if 0 <= start < s.len() {
        let stop = group_stop(s, start, start);
        match choice_of_text(unclosed(s.subrange(start, stop))) {
            Err(e) => Err(PasswordParseErrorView::BadChoice(e)),
            Ok(c) => {
                proof {
                    lemma_group_stop(s, start, start);
                }
                groups_of_text(s, stop, put(acc, c))
            },
        }
    } else {
        Ok(acc)
    }
}

/// What a text means as a specification. Leading blanks do not count. The
/// first `//` ends the length, which may carry a `+`. What follows is read
/// group by group: a group ends with the last two of a run of slashes, or
/// with the text.
pub open spec fn spec_of_text(s: Seq<char>) -> Result<PasswordSpecView, PasswordParseErrorView> {
    let t = trimmed_start(s);
    let sep = find_pair_from(t, 0);
    if sep >= t.len() {
        Err(PasswordParseErrorView::ImproperFormat)
    } else {
        match signed_number_of(t.take(sep)) {
            None => Err(PasswordParseErrorView::InvalidLength(t.take(sep))),
            Some(length) => match groups_of_text(t.skip(sep + 2), 0, Seq::empty()) {
                Err(e) => Err(e),
                Ok(choices) => Ok(PasswordSpecView { length, choices }),
            },
        }
    }
}

/// Finds the first `//` in `s`.
pub fn pair_position(s: &[char]) -> (k: usize)
    ensures
        k == find_pair_from(s@, 0),
        k <= s@.len(),
{
    let mut i: usize = 0;
    while i < s.len() && !(i + 1 < s.len() && s[i] == '/' && s[i + 1] == '/')
        invariant
            i <= s.len(),
            find_pair_from(s@, 0) == find_pair_from(s@, i as int),
        decreases s.len() - i,
    {
        i += 1;
    }
    i
}

/// Finds where the reading of the group that begins at `start` stops.
pub fn group_end(s: &[char], start: usize) -> (k: usize)
    requires
        start < s@.len(),
    ensures
        k == group_stop(s@, start as int, start as int),
        start < k <= s@.len(),
{
    let mut i: usize = start;
    while i < s.len() && !(i - start >= 2 && s[i - 2] == '/' && s[i - 1] == '/' && s[i] != '/')
        invariant
            start <= i <= s.len(),
            group_stop(s@, start as int, start as int) == group_stop(s@, start as int, i as int),
        decreases s.len() - i,
    {
        i += 1;
    }
    proof {
        lemma_group_stop(s@, start as int, start as int);
    }
    i
}

/// The budgets of a working pool, as plain data.
spec fn views(pool: Seq<Choice>) -> Seq<ChoiceView> {
    pool.map_values(|c: Choice| c@)
}

/// How the working pool of a generation hangs together with what was drawn
/// so far. The entries before `done` have their required characters; the
/// others have none yet. The pool holds the budgets of the entries before
/// `done` that may still be drawn from, `origin` says which entry each is
/// of, and what is left of a budget is what its entry allows beyond its part.
spec fn settled(
    entries: Seq<ChoiceView>,
    parts: Seq<Seq<char>>,
    pool: Seq<ChoiceView>,
    origin: Seq<int>,
    done: int,
) -> bool {
    &&& parts.len() == entries.len()
    &&& origin.len() == pool.len()
    &&& forall|i: int| 0 <= i < done && i < entries.len() ==> within(#[trigger] parts[i], entries[i])
    &&& forall|i: int| done <= i < entries.len() ==> (#[trigger] parts[i]).len() == 0
    &&& forall|p: int| 0 <= p < pool.len() ==> 0 <= #[trigger] origin[p] < done
    &&& forall|p: int, q: int| 0 <= p < q < pool.len() ==> origin[p] != origin[q]
    &&& forall|p: int|
        0 <= p < pool.len() ==> {
            &&& (#[trigger] pool[p]).class == entries[origin[p]].class
            &&& pool[p].min == 0
            &&& pool[p].max > 0
            &&& pool[p].max + parts[origin[p]].len() == entries[origin[p]].max
        }
}

impl Default for PasswordSpec {
    /// Thirty-two characters, with at least one upper-case letter, one
    /// lower-case letter, one digit and one symbol.
    fn default() -> (r: Self)
        ensures
            r@ == (PasswordSpecView {
                length: DEFAULT_LENGTH,
                choices: seq![
                    ChoiceView { min: 1, max: usize::MAX, class: CharsetView::Upper },
                    ChoiceView { min: 1, max: usize::MAX, class: CharsetView::Lower },
                    ChoiceView { min: 1, max: usize::MAX, class: CharsetView::Number },
                    ChoiceView { min: 1, max: usize::MAX, class: CharsetView::Symbol },
                ],
            }),
    {
        let mut choices = Choices::new();
        choices.push(Charset::Upper.at_least(1));
        choices.push(Charset::Lower.at_least(1));
        choices.push(Charset::Number.at_least(1));
        choices.push(Charset::Symbol.at_least(1));
        proof {
            reveal_with_fuel(slot_from, 5);
            assert(choices@ =~= seq![
                ChoiceView { min: 1, max: usize::MAX, class: CharsetView::Upper },
                ChoiceView { min: 1, max: usize::MAX, class: CharsetView::Lower },
                ChoiceView { min: 1, max: usize::MAX, class: CharsetView::Number },
                ChoiceView { min: 1, max: usize::MAX, class: CharsetView::Symbol },
            ]);
        }
        PasswordSpec { choices, length: DEFAULT_LENGTH }
    }
}

impl Clone for PasswordSpec {
    fn clone(&self) -> (r: Self)
        ensures
            r@ == self@,
    {
        proof {
            use_type_invariant(self);
        }
        PasswordSpec { length: self.length, choices: self.choices.clone() }
    }
}

/// Two specifications count as the same when they have the same length and
/// constrain the same classes.
impl PartialEq for PasswordSpec {
    fn eq(&self, other: &Self) -> (r: bool) {
        self.length == other.length && self.choices == other.choices
    }
}

impl PartialEqSpecImpl for PasswordSpec {
    open spec fn obeys_eq_spec() -> bool {
        true
    }

    open spec fn eq_spec(&self, other: &Self) -> bool {
        &&& self@.length == other@.length
        &&& self@.choices.len() == other@.choices.len()
        &&& covered(self@.choices, other@.choices)
    }
}

impl PasswordSpec {
    /// No two constraints are about the same class, and the bounds of each
    /// are ordered.
    #[verifier::type_invariant]
    pub open spec fn sound(self) -> bool {
        well_formed(self@.choices)
    }

    /// The specification of the default length without constraints.
    pub fn new() -> (r: Self)
        ensures
            r@ == (PasswordSpecView { length: DEFAULT_LENGTH, choices: Seq::empty() }),
            r@.drawable(),
    {
        Self { choices: Choices::new(), length: DEFAULT_LENGTH }
    }

    /// The length of the passwords.
    pub fn len(&self) -> (n: usize)
        ensures
            n == self@.length,
    {
        self.length
    }

    /// The constraints.
    pub fn choices(&self) -> (r: &Choices)
        ensures
            r@ == self@.choices,
    {
        &self.choices
    }

    /// Whether every class that may be drawn from has a character. Only
    /// then can a password be generated.
    pub fn is_drawable(&self) -> (r: bool)
        ensures
            r == self@.drawable(),
    {
        let entries = self.choices.as_slice();
        let mut i: usize = 0;
        while i < entries.len()
            invariant
                i <= entries.len(),
                entries@.len() == self@.choices.len(),
                forall|j: int| 0 <= j < entries@.len() ==> (#[trigger] entries@[j])@ == self@.choices[j],
                forall|j: int| 0 <= j < i ==> (#[trigger] self@.choices[j]).drawable(),
            decreases entries.len() - i,
        {
            if entries[i].active() && entries[i].chars().is_empty() {
                assert(!self@.choices[i as int].drawable());
                return false;
            }
            i += 1;
        }
        true
    }

    /// Whether some password meets the specification.
    pub fn check(&self) -> (r: bool)
        ensures
            r == self@.feasible(),
    {
        let entries = self.choices.as_slice();
        let mut min_length: usize = 0;
        let mut max_length: usize = 0;
        let mut i: usize = 0;
        while i < entries.len()
            invariant
                i <= entries.len(),
                entries@.len() == self@.choices.len(),
                forall|j: int| 0 <= j < entries@.len() ==> (#[trigger] entries@[j])@ == self@.choices[j],
                min_length == saturated(total_min(self@.choices.take(i as int))),
                max_length == saturated(total_max(self@.choices.take(i as int))),
            decreases entries.len() - i,
        {
            proof {
                let t = self@.choices.take(i + 1);
                assert(t.drop_last() == self@.choices.take(i as int));
                assert(t.last() == entries@[i as int]@);
                lemma_totals_bounds(self@.choices.take(i as int));
            }
            min_length = min_length.saturating_add(entries[i].min());
            max_length = max_length.saturating_add(entries[i].max());
            i += 1;
        }
        assert(self@.choices.take(entries.len() as int) == self@.choices);
        min_length <= self.length && self.length <= max_length
    }

    /// Generates a password, or nothing where no password meets the
    /// specification.
    ///
    /// First each constraint draws the characters that it requires. Then,
    /// until the length is reached, one of the constraints that may still be
    /// drawn from is picked and draws one more. In the end the characters are
    /// shuffled.
    ///
    /// Whatever the random draws give, a password comes out exactly where the
    /// specification is feasible; it has the length asked for and is a draw
    /// from the constraints. So it holds at least the required number of
    /// characters of each class and, of a class that stands alone, no more
    /// than allowed.
    ///
    /// A feasible specification must be drawable: a class without characters
    /// must not be one that may be drawn from.
    pub fn generate(&self) -> (r: Option<String>)
        requires
            self@.feasible() ==> self@.drawable(),
        ensures
            r is Some <==> self@.feasible(),
            r is Some ==> r.unwrap()@.len() == self@.length,
            r is Some ==> is_draw(self@.choices, r.unwrap()@),
            r is Some ==> forall|i: int|
                0 <= i < self@.choices.len() ==> occurrences(
                    r.unwrap()@,
                    (#[trigger] self@.choices[i]).class.chars(),
                ) >= self@.choices[i].min,
            r is Some ==> forall|i: int|
                0 <= i < self@.choices.len() && alone(self@.choices, i) ==> occurrences(
                    r.unwrap()@,
                    (#[trigger] self@.choices[i]).class.chars(),
                ) <= self@.choices[i].max,
    {
        if !self.check() {
            return None;
        }
        let entries = self.choices.as_slice();
        let n = entries.len();
        let ghost all = self@.choices;
        let mut characters: Vec<char> = Vec::new();
        let mut pool: Vec<Choice> = Vec::new();
        let ghost mut parts = Seq::new(n as nat, |i: int| Seq::<char>::empty());
        let ghost mut origin = Seq::<int>::empty();
        proof {
            lemma_flatten_empty(parts);
        }
        let mut i: usize = 0;
        while i < n
            invariant
                i <= n,
                n == entries@.len(),
                n == all.len(),
                forall|j: int| 0 <= j < n ==> (#[trigger] entries@[j])@ == all[j],
                forall|j: int| 0 <= j < n ==> (#[trigger] all[j]).drawable(),
                settled(all, parts, views(pool@), origin, i as int),
                characters@.to_multiset() == parts.flatten().to_multiset(),
                characters@.len() == total_min(all.take(i as int)),
                total_max(views(pool@)) == total_max(all.take(i as int)) - total_min(
                    all.take(i as int),
                ),
            decreases n - i,
        {
            let mut choice = entries[i].clone();
            proof {
                use_type_invariant(&choice);
            }
            let mut drawn = choice.get_required();
            proof {
                let t = all.take(i + 1);
                assert(t.drop_last() == all.take(i as int));
                assert(t.last() == all[i as int]);
                assert(all[i as int].drawable());
                assert(parts[i as int] + drawn@ == drawn@);
                lemma_flatten_extend(parts, i as int, drawn@);
                lemma_multiset_commutative(characters@, drawn@);
                parts = parts.update(i as int, drawn@);
            }
            characters.append(&mut drawn);
            if choice.active() {
                proof {
                    let before = views(pool@);
                    assert(views(pool@.push(choice)) == before.push(choice@));
                    assert(before.push(choice@).drop_last() == before);
                    origin = origin.push(i as int);
                }
                pool.push(choice);
            }
            i += 1;
        }
        assert(all.take(n as int) == all);
        let have = characters.len();
        let remaining = self.length - have;
        let mut k: usize = 0;
        while k < remaining
            invariant
                k <= remaining,
                have + remaining == self@.length,
                n == all.len(),
                forall|j: int| 0 <= j < n ==> (#[trigger] all[j]).drawable(),
                settled(all, parts, views(pool@), origin, n as int),
                characters@.to_multiset() == parts.flatten().to_multiset(),
                characters@.len() == have + k,
                total_max(views(pool@)) >= remaining - k,
            decreases remaining - k,
        {
            proof {
                lemma_totals_bounds(views(pool@));
            }
            if let Some(index) = pick_index(pool.len()) {
                let ghost before = views(pool@);
                let ghost o = origin[index as int];
                assert(before[index as int] == pool@[index as int]@);
                assert(all[o].drawable());
                let c = pool[index].next().unwrap();
                proof {
                    let budget = before[index as int].spend();
                    assert(views(pool@) == before.update(index as int, budget));
                    lemma_total_max_update(before, index as int, budget);
                    lemma_flatten_extend(parts, o, seq![c]);
                    lemma_multiset_commutative(characters@, seq![c]);
                    assert(characters@.push(c) == characters@ + seq![c]);
                    assert(parts[o] + seq![c] == parts[o].push(c));
                    parts = parts.update(o, parts[o].push(c));
                }
                characters.push(c);
                if !pool[index].active() {
                    proof {
                        let now = views(pool@);
                        assert(views(pool@.remove(index as int)) == now.remove(index as int));
                        lemma_total_max_remove(now, index as int);
                        origin = origin.remove(index as int);
                    }
                    pool.remove(index);
                }
            }
            k += 1;
        }
        let ghost plain = characters@;
        shuffle(&mut characters);
        let password = string_of(characters);
        proof {
            plain.to_multiset_ensures();
            password@.to_multiset_ensures();
            assert(drawn_from(all, parts, password@));
            assert forall|i: int| 0 <= i < all.len() implies occurrences(
                password@,
                (#[trigger] all[i]).class.chars(),
            ) >= all[i].min by {
                lemma_minimum_met(all, password@, i);
            }
            assert forall|i: int| 0 <= i < all.len() && alone(all, i) implies occurrences(
                password@,
                (#[trigger] all[i]).class.chars(),
            ) <= all[i].max by {
                lemma_maximum_kept(all, password@, i);
            }
        }
        Some(password)
    }

    /// Reads a specification from characters.
    pub fn parse_chars(s: &[char]) -> (r: Result<Self, PasswordParseError>)
        ensures
            match r {
                Ok(spec) => spec_of_text(s@) == Ok::<PasswordSpecView, PasswordParseErrorView>(
                    spec@,
                ) && spec@.drawable(),
                Err(e) => spec_of_text(s@) == Err::<PasswordSpecView, PasswordParseErrorView>(e@),
            },
    {
        let t = trim_start(s);
        let sep = pair_position(t);
        if sep >= t.len() {
            return Err(PasswordParseError::ImproperFormat);
        }
        proof {
            lemma_find_pair_from(t@, 0);
        }
        let head = vstd::slice::slice_subrange(t, 0, sep);
        assert(head@ == t@.take(sep as int));
        let length = match parse_signed_number(head) {
            Some(n) => n,
            None => {
                return Err(PasswordParseError::InvalidLength(string_of(vec_of(head))));
            },
        };
        let rest = vstd::slice::slice_subrange(t, sep + 2, t.len());
        assert(rest@ == t@.skip(sep + 2));
        let mut spec = PasswordSpec::new().length(length);
        let ghost groups = groups_of_text(rest@, 0, Seq::empty());
        let mut start: usize = 0;
        while start < rest.len()
            invariant
                start <= rest.len(),
                spec@.length == length,
                spec@.drawable(),
                groups == groups_of_text(rest@, start as int, spec@.choices),
                spec_of_text(s@) == match groups {
                    Err(e) => Err::<PasswordSpecView, PasswordParseErrorView>(e),
                    Ok(choices) => Ok(PasswordSpecView { length, choices }),
                },
            decreases rest.len() - start,
        {
            let stop = group_end(rest, start);
            let chunk = vstd::slice::slice_subrange(rest, start, stop);
            let group = if chunk.len() >= 2 && chunk[chunk.len() - 2] == '/' && chunk[chunk.len()
                - 1] == '/' {
                vstd::slice::slice_subrange(chunk, 0, chunk.len() - 2)
            } else {
                chunk
            };
            assert(group@ == unclosed(rest@.subrange(start as int, stop as int)));
            match Choice::parse_chars(group) {
                Ok(choice) => {
                    spec = spec.with(choice);
                },
                Err(e) => {
                    return Err(PasswordParseError::BadChoice(e));
                },
            }
            start = stop;
        }
        Ok(spec)
    }

    /// Reads a specification from its text.
    pub fn parse(s: &str) -> (r: Result<Self, PasswordParseError>)
        ensures
            match r {
                Ok(spec) => spec_of_text(s@) == Ok::<PasswordSpecView, PasswordParseErrorView>(
                    spec@,
                ) && spec@.drawable(),
                Err(e) => spec_of_text(s@) == Err::<PasswordSpecView, PasswordParseErrorView>(e@),
            },
    {
        let chars = chars_of(s);
        Self::parse_chars(chars.as_slice())
    }

    /// The characters of the specification's text.
    pub fn render(&self) -> (v: Vec<char>)
        ensures
            v@ == spec_text(self@),
    {
        let mut v = render_number(self.length);
        if self.choices.len() == 0 {
            v.push('/');
            v.push('/');
        } else {
            let groups = self.choices.render();
            append_chars(&mut v, groups.as_slice());
        }
        v
    }

    /// The specification's text.
    pub fn to_string(&self) -> (s: String)
        ensures
            s@ == spec_text(self@),
    {
        string_of(self.render())
    }

    /// Sets the length.
    pub fn length(self, length: usize) -> (r: Self)
        ensures
            r@ == self@.resized(length),
            self@.drawable() ==> r@.drawable(),
    {
        proof {
            use_type_invariant(&self);
        }
        PasswordSpec { length, choices: self.choices }
    }

    /// Puts a constraint in. It takes the place of the constraint on its
    /// class, where there is one.
    pub fn with(self, choice: Choice) -> (r: Self)
        ensures
            r@ == self@.with(choice@),
            self@.drawable() && choice@.drawable() ==> r@.drawable(),
    {
        proof {
            use_type_invariant(&self);
            use_type_invariant(&choice);
            lemma_put_well_formed(self@.choices, choice@);
            lemma_slot_from(self@.choices, choice@.class, 0);
        }
        let mut choices = self.choices;
        choices.push(choice);
        PasswordSpec { length: self.length, choices }
    }

    /// Holds the upper-case letters to `interval`.
    pub fn upper(self, interval: Interval) -> (r: Self)
        ensures
            r@ == self@.with(
                ChoiceView { min: interval@.min, max: interval@.max, class: CharsetView::Upper },
            ),
            self@.drawable() ==> r@.drawable(),
    {
        self.with(Choice::from_interval(interval, Charset::Upper))
    }

    /// Asks for `size` or more upper-case letters.
    pub fn upper_at_least(self, size: usize) -> (r: Self)
        ensures
            r@ == self@.with(ChoiceView { min: size, max: usize::MAX, class: CharsetView::Upper }),
            self@.drawable() ==> r@.drawable(),
    {
        self.with(Charset::Upper.at_least(size))
    }

    /// Asks for `size` or fewer upper-case letters.
    pub fn upper_at_most(self, size: usize) -> (r: Self)
        ensures
            r@ == self@.with(ChoiceView { min: 0, max: size, class: CharsetView::Upper }),
            self@.drawable() ==> r@.drawable(),
    {
        self.with(Charset::Upper.at_most(size))
    }

    /// Asks for exactly `size` upper-case letters.
    pub fn upper_exactly(self, size: usize) -> (r: Self)
        ensures
            r@ == self@.with(ChoiceView { min: size, max: size, class: CharsetView::Upper }),
            self@.drawable() ==> r@.drawable(),
    {
        self.with(Charset::Upper.exactly(size))
    }

    /// Holds the lower-case letters to `interval`.
    pub fn lower(self, interval: Interval) -> (r: Self)
        ensures
            r@ == self@.with(
                ChoiceView { min: interval@.min, max: interval@.max, class: CharsetView::Lower },
            ),
            self@.drawable() ==> r@.drawable(),
    {
        self.with(Choice::from_interval(interval, Charset::Lower))
    }

    /// Asks for `size` or more lower-case letters.
    pub fn lower_at_least(self, size: usize) -> (r: Self)
        ensures
            r@ == self@.with(ChoiceView { min: size, max: usize::MAX, class: CharsetView::Lower }),
            self@.drawable() ==> r@.drawable(),
    {
        self.with(Charset::Lower.at_least(size))
    }

    /// Asks for `size` or fewer lower-case letters.
    pub fn lower_at_most(self, size: usize) -> (r: Self)
        ensures
            r@ == self@.with(ChoiceView { min: 0, max: size, class: CharsetView::Lower }),
            self@.drawable() ==> r@.drawable(),
    {
        self.with(Charset::Lower.at_most(size))
    }

    /// Asks for exactly `size` lower-case letters.
    pub fn lower_exactly(self, size: usize) -> (r: Self)
        ensures
            r@ == self@.with(ChoiceView { min: size, max: size, class: CharsetView::Lower }),
            self@.drawable() ==> r@.drawable(),
    {
        self.with(Charset::Lower.exactly(size))
    }

    /// Holds the digits to `interval`.
    pub fn number(self, interval: Interval) -> (r: Self)
        ensures
            r@ == self@.with(
                ChoiceView { min: interval@.min, max: interval@.max, class: CharsetView::Number },
            ),
            self@.drawable() ==> r@.drawable(),
    {
        self.with(Choice::from_interval(interval, Charset::Number))
    }

    /// Asks for `size` or more digits.
    pub fn number_at_least(self, size: usize) -> (r: Self)
        ensures
            r@ == self@.with(ChoiceView { min: size, max: usize::MAX, class: CharsetView::Number }),
            self@.drawable() ==> r@.drawable(),
    {
        self.with(Charset::Number.at_least(size))
    }

    /// Asks for `size` or fewer digits.
    pub fn number_at_most(self, size: usize) -> (r: Self)
        ensures
            r@ == self@.with(ChoiceView { min: 0, max: size, class: CharsetView::Number }),
            self@.drawable() ==> r@.drawable(),
    {
        self.with(Charset::Number.at_most(size))
    }

    /// Asks for exactly `size` digits.
    pub fn number_exactly(self, size: usize) -> (r: Self)
        ensures
            r@ == self@.with(ChoiceView { min: size, max: size, class: CharsetView::Number }),
            self@.drawable() ==> r@.drawable(),
    {
        self.with(Charset::Number.exactly(size))
    }

    /// Holds the symbols to `interval`.
    pub fn symbol(self, interval: Interval) -> (r: Self)
        ensures
            r@ == self@.with(
                ChoiceView { min: interval@.min, max: interval@.max, class: CharsetView::Symbol },
            ),
            self@.drawable() ==> r@.drawable(),
    {
        self.with(Choice::from_interval(interval, Charset::Symbol))
    }

    /// Asks for `size` or more symbols.
    pub fn symbol_at_least(self, size: usize) -> (r: Self)
        ensures
            r@ == self@.with(ChoiceView { min: size, max: usize::MAX, class: CharsetView::Symbol }),
            self@.drawable() ==> r@.drawable(),
    {
        self.with(Charset::Symbol.at_least(size))
    }

    /// Asks for `size` or fewer symbols.
    pub fn symbol_at_most(self, size: usize) -> (r: Self)
        ensures
            r@ == self@.with(ChoiceView { min: 0, max: size, class: CharsetView::Symbol }),
            self@.drawable() ==> r@.drawable(),
    {
        self.with(Charset::Symbol.at_most(size))
    }

    /// Asks for exactly `size` symbols.
    pub fn symbol_exactly(self, size: usize) -> (r: Self)
        ensures
            r@ == self@.with(ChoiceView { min: size, max: size, class: CharsetView::Symbol }),
            self@.drawable() ==> r@.drawable(),
    {
        self.with(Charset::Symbol.exactly(size))
    }

    /// Holds the characters `chars` to `interval`.
    pub fn custom(self, chars: Vec<char>, interval: Interval) -> (r: Self)
        ensures
            r@ == self@.with(
                ChoiceView {
                    min: interval@.min,
                    max: interval@.max,
                    class: CharsetView::Custom(chars@),
                },
            ),
            self@.drawable() && chars@.len() > 0 ==> r@.drawable(),
    {
        self.with(Choice::from_interval(interval, Charset::Custom(chars)))
    }

    /// Asks for `size` or more of the characters `chars`.
    pub fn custom_at_least(self, chars: Vec<char>, size: usize) -> (r: Self)
        ensures
            r@ == self@.with(
                ChoiceView { min: size, max: usize::MAX, class: CharsetView::Custom(chars@) },
            ),
            self@.drawable() && chars@.len() > 0 ==> r@.drawable(),
    {
        self.with(Charset::Custom(chars).at_least(size))
    }

    /// Asks for `size` or fewer of the characters `chars`.
    pub fn custom_at_most(self, chars: Vec<char>, size: usize) -> (r: Self)
        ensures
            r@ == self@.with(ChoiceView { min: 0, max: size, class: CharsetView::Custom(chars@) }),
            self@.drawable() && chars@.len() > 0 ==> r@.drawable(),
    {
        self.with(Charset::Custom(chars).at_most(size))
    }

    /// Asks for exactly `size` of the characters `chars`.
    pub fn custom_exactly(self, chars: Vec<char>, size: usize) -> (r: Self)
        ensures
            r@ == self@.with(
                ChoiceView { min: size, max: size, class: CharsetView::Custom(chars@) },
            ),
            self@.drawable() && chars@.len() > 0 ==> r@.drawable(),
    {
        self.with(Charset::Custom(chars).exactly(size))
    }
}

impl core::str::FromStr for PasswordSpec {
    type Err = PasswordParseError;

    fn from_str(s: &str) -> (r: Result<Self, Self::Err>)
        ensures
            match r {
                Ok(spec) => spec_of_text(s@) == Ok::<PasswordSpecView, PasswordParseErrorView>(
                    spec@,
                ) && spec@.drawable(),
                Err(e) => spec_of_text(s@) == Err::<PasswordSpecView, PasswordParseErrorView>(e@),
            },
    {
        PasswordSpec::parse(s)
    }
}

} // verus!
