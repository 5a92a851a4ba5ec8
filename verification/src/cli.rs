//! What a command line asks for: a specification to start from and what to
//! change in it.
use crate::charset::CharsetView;
use crate::choice::{put_all, Choice, ChoiceView};
use crate::draw::is_draw;
use crate::interval::Interval;
use crate::password::{PasswordSpec, PasswordSpecView};
use vstd::prelude::*;

verus! {

/// The arguments of one run, already read from their texts.
pub struct CliArgs {
    /// The specification to start from.
    pub spec: PasswordSpec,
    /// Another length, where given.
    pub length: Option<usize>,
    /// Another interval for the upper-case letters, where given.
    pub upper: Option<Interval>,
    /// Another interval for the lower-case letters, where given.
    pub lower: Option<Interval>,
    /// Another interval for the digits, where given.
    pub number: Option<Interval>,
    /// Another interval for the symbols, where given.
    pub symbol: Option<Interval>,
    /// Further constraints, in the order in which they were given.
    pub custom: Vec<Choice>,
}

/// The specification with `class` held to `interval`, where one is given.
pub open spec fn overridden(
    spec: PasswordSpecView,
    interval: Option<Interval>,
    class: CharsetView,
) -> PasswordSpecView {
    match interval {
        Some(iv) => spec.with(ChoiceView { min: iv@.min, max: iv@.max, class }),
        None => spec,
    }
}

impl CliArgs {
    /// The specification that the arguments ask for. The length is changed
    /// first, then the intervals of the upper-case letters, the lower-case
    /// letters, the digits and the symbols, then the further constraints are
    /// put in one after the other.
    pub open spec fn resolved(self) -> PasswordSpecView {
        let sized = match self.length {
            Some(n) => self.spec@.resized(n),
            None => self.spec@,
        };
        let with_upper = overridden(sized, self.upper, CharsetView::Upper);
        let with_lower = overridden(with_upper, self.lower, CharsetView::Lower);
        let with_number = overridden(with_lower, self.number, CharsetView::Number);
        let with_symbol = overridden(with_number, self.symbol, CharsetView::Symbol);
        PasswordSpecView {
            length: with_symbol.length,
            choices: put_all(with_symbol.choices, self.custom@.map_values(|c: Choice| c@)),
        }
    }

    /// Builds the specification that the arguments ask for.
    pub fn resolve(self) -> (r: PasswordSpec)
        ensures
            r@ == self.resolved(),
    {
        let mut password_spec = self.spec;
        if let Some(length) = self.length {
            password_spec = password_spec.length(length);
        }
        if let Some(upper) = self.upper {
            password_spec = password_spec.upper(upper);
        }
        if let Some(lower) = self.lower {
            password_spec = password_spec.lower(lower);
        }
        if let Some(number) = self.number {
            password_spec = password_spec.number(number);
        }
        if let Some(symbol) = self.symbol {
            password_spec = password_spec.symbol(symbol);
        }
        let ghost base = password_spec@;
        let ghost more = self.custom@.map_values(|c: Choice| c@);
        let mut i: usize = 0;
        while i < self.custom.len()
            invariant
                i <= self.custom.len(),
                more == self.custom@.map_values(|c: Choice| c@),
                password_spec@.length == base.length,
                password_spec@.choices == put_all(base.choices, more.take(i as int)),
            decreases self.custom.len() - i,
        {
            let c = self.custom[i].clone();
            proof {
                let t = more.take(i + 1);
                assert(t.drop_last() == more.take(i as int));
                assert(t.last() == c@);
            }
            password_spec = password_spec.with(c);
            i += 1;
        }
        assert(more.take(self.custom.len() as int) == more);
        password_spec
    }

    /// Generates a password for the specification that the arguments ask
    /// for, or nothing where no password meets it.
    pub fn execute(self) -> (r: Option<String>)
        requires
            self.resolved().feasible() ==> self.resolved().drawable(),
        ensures
            r is Some <==> self.resolved().feasible(),
            r is Some ==> r.unwrap()@.len() == self.resolved().length,
            r is Some ==> is_draw(self.resolved().choices, r.unwrap()@),
    {
        let password_spec = self.resolve();
        password_spec.generate()
    }
}

} // verus!
