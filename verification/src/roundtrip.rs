//! Reading back what was written: the text of an interval, a class, a
//! constraint or a specification means what it was written from.
use crate::charset::{charset_of_text, charset_text, CharsetView};
use crate::choice::{
    choice_of_text, choice_text, choices_text, distinct, lemma_slot_from, ordered, put,
    well_formed, ChoiceView,
};
use crate::interval::{interval_of_text, interval_text, IntervalView};
use crate::password::{
    closes, find_pair_from, group_stop, groups_of_text, lemma_group_stop, pair_at, spec_of_text,
    spec_text, unclosed, PasswordParseErrorView, PasswordSpecView,
};
use crate::text::{
    decimal_text, drop_spaces, is_digit, is_space, lemma_decimal_text, lemma_find_unique,
    number_of, signed_number_of, skip_spaces, trimmed, trimmed_start,
};
use vstd::prelude::*;

verus! {

// ---------------------------------------------------------------------------
// Numbers and blanks
// ---------------------------------------------------------------------------

/// A text that does not begin with a blank has no leading blanks to lose.
pub proof fn lemma_trimmed_start_same(s: Seq<char>)
    requires
        s.len() > 0 ==> !is_space(s[0]),
    ensures
        trimmed_start(s) == s,
{
    assert(skip_spaces(s, 0) == 0);
    assert(s.skip(0) == s);
}

/// A text that neither begins nor ends with a blank loses nothing when
/// trimmed.
pub proof fn lemma_trimmed_same(s: Seq<char>)
    requires
        s.len() > 0 ==> !is_space(s[0]) && !is_space(s.last()),
    ensures
        trimmed(s) == s,
{
    lemma_trimmed_start_same(s);
    assert(drop_spaces(s, s.len() as int) == s.len());
    assert(s.take(s.len() as int) == s);
}

/// A number reads back from its decimal text.
pub proof fn lemma_number_round_trip(n: usize)
    ensures
        number_of(decimal_text(n as nat)) == Some(n),
{
    lemma_decimal_text(n as nat);
}

// ---------------------------------------------------------------------------
// Intervals
// ---------------------------------------------------------------------------

/// Whether `s` is made of digits, `+` and `-` only, as the text of an
/// interval is.
pub open spec fn is_plain(s: Seq<char>) -> bool {
    forall|i: int| 0 <= i < s.len() ==> is_digit(#[trigger] s[i]) || s[i] == '+' || s[i] == '-'
}

/// The text of an interval begins with a digit and holds nothing but digits,
/// `+` and `-`.
pub proof fn lemma_interval_text_plain(iv: IntervalView)
    ensures
        interval_text(iv).len() > 0,
        is_digit(interval_text(iv)[0]),
        is_plain(interval_text(iv)),
{
    lemma_decimal_text(iv.min as nat);
    lemma_decimal_text(iv.max as nat);
}

/// An interval reads back from its text.
pub proof fn lemma_interval_round_trip(iv: IntervalView)
    requires
        iv.min <= iv.max,
    ensures
        interval_of_text(interval_text(iv)) == Ok::<
            IntervalView,
            crate::interval::IntervalParseErrorView,
        >(iv),
{
    let low = decimal_text(iv.min as nat);
    let high = decimal_text(iv.max as nat);
    lemma_decimal_text(iv.min as nat);
    lemma_decimal_text(iv.max as nat);
    lemma_number_round_trip(iv.min);
    lemma_number_round_trip(iv.max);
    let t = interval_text(iv);
    lemma_trimmed_same(t);
    if iv.min == iv.max {
        lemma_find_unique(t, '-', t.len() as int);
    } else if iv.min == 0 {
        lemma_find_unique(t, '-', high.len() as int);
        assert(t.take(high.len() as int) == high);
    } else if iv.max == usize::MAX {
        assert(t.drop_last() == low);
    } else {
        lemma_find_unique(t, '-', low.len() as int);
        assert(t.take(low.len() as int) == low);
        assert(t.skip(low.len() as int + 1) == high);
    }
}

// ---------------------------------------------------------------------------
// Classes
// ---------------------------------------------------------------------------

/// Whether a class can be told from its text: custom characters must not be
/// empty, nor both begin and end with a colon.
pub open spec fn is_legible(class: CharsetView) -> bool {
    match class {
        CharsetView::Custom(s) => s.len() > 0 && !(s.first() == ':' && s.last() == ':'),
        _ => true,
    }
}

/// A legible class reads back from its text.
pub proof fn lemma_charset_round_trip(class: CharsetView)
    requires
        is_legible(class),
    ensures
        charset_of_text(charset_text(class)) == Ok::<
            CharsetView,
            crate::charset::CharsetParseErrorView,
        >(class),
{
    reveal_strlit(":upper:");
    reveal_strlit(":lower:");
    reveal_strlit(":number:");
    reveal_strlit(":symbol:");
    let t = charset_text(class);
    match class {
        CharsetView::Upper => {},
        CharsetView::Lower => {
            assert(t[1] != ":upper:"@[1]);
        },
        CharsetView::Number => {
            assert(t[1] != ":upper:"@[1]);
            assert(t[1] != ":lower:"@[1]);
        },
        CharsetView::Symbol => {
            assert(t[1] != ":upper:"@[1]);
            assert(t[1] != ":lower:"@[1]);
            assert(t[1] != ":number:"@[1]);
        },
        CharsetView::Custom(s) => {
            assert(":upper:"@.first() == ':' && ":upper:"@.last() == ':');
            assert(":lower:"@.first() == ':' && ":lower:"@.last() == ':');
            assert(":number:"@.first() == ':' && ":number:"@.last() == ':');
            assert(":symbol:"@.first() == ':' && ":symbol:"@.last() == ':');
        },
    }
}

// ---------------------------------------------------------------------------
// Constraints
// ---------------------------------------------------------------------------

/// A constraint with ordered bounds and a legible class reads back from its
/// text.
pub proof fn lemma_choice_round_trip(c: ChoiceView)
    requires
        c.min <= c.max,
        is_legible(c.class),
    ensures
        choice_of_text(choice_text(c)) == Ok::<ChoiceView, crate::choice::ChoiceParseErrorView>(c),
{
    let head = interval_text(c.interval());
    let tail = charset_text(c.class);
    let t = choice_text(c);
    lemma_interval_text_plain(c.interval());
    lemma_interval_round_trip(c.interval());
    lemma_charset_round_trip(c.class);
    assert forall|j: int| 0 <= j < head.len() implies t[j] != '|' by {
        assert(t[j] == head[j]);
    }
    lemma_find_unique(t, '|', head.len() as int);
    assert(t.take(head.len() as int) == head);
    assert(t.skip(head.len() as int + 1) == tail);
}

// ---------------------------------------------------------------------------
// Specifications
// ---------------------------------------------------------------------------

/// Whether no two slashes stand side by side in `s`.
pub open spec fn no_pair(s: Seq<char>) -> bool {
    forall|i: int| !pair_at(s, i)
}

/// Whether a class can be written into the text of a specification: it is
/// legible and no two slashes stand side by side in its custom characters.
pub open spec fn is_writable(class: CharsetView) -> bool {
    is_legible(class) && no_pair(charset_text(class))
}

/// Whether the class of every entry can be written.
pub open spec fn all_writable(entries: Seq<ChoiceView>) -> bool {
    forall|i: int| 0 <= i < entries.len() ==> is_writable((#[trigger] entries[i]).class)
}

/// The four built-in classes can be written.
pub proof fn lemma_builtin_writable()
    ensures
        is_writable(CharsetView::Upper),
        is_writable(CharsetView::Lower),
        is_writable(CharsetView::Number),
        is_writable(CharsetView::Symbol),
{
    reveal_strlit(":upper:");
    reveal_strlit(":lower:");
    reveal_strlit(":number:");
    reveal_strlit(":symbol:");
}

/// The texts of the entries with a `//` between each two.
spec fn joined(entries: Seq<ChoiceView>) -> Seq<char>
    decreases entries.len(),
{
    if entries.len() == 0 {
        Seq::empty()
    } else if entries.len() == 1 {
        choice_text(entries[0])
    } else {
        choice_text(entries[0]).push('/').push('/') + joined(entries.drop_first())
    }
}

/// The text of a constraint that can be written begins with a digit and
/// holds no `//`.
proof fn lemma_choice_text_shape(c: ChoiceView)
    requires
        is_writable(c.class),
    ensures
        choice_text(c).len() > 0,
        is_digit(choice_text(c)[0]),
        no_pair(choice_text(c)),
{
    let head = interval_text(c.interval());
    let tail = charset_text(c.class);
    let t = choice_text(c);
    lemma_interval_text_plain(c.interval());
    assert(t[0] == head[0]);
    assert forall|i: int| !pair_at(t, i) by {
        if 0 <= i && i + 1 < t.len() {
            if i < head.len() {
                assert(t[i] == head[i]);
            } else if i == head.len() {
                assert(t[i] == '|');
            } else {
                assert(!pair_at(tail, i - head.len() - 1));
                assert(t[i] == tail[i - head.len() - 1]);
                assert(t[i + 1] == tail[i - head.len()]);
            }
        }
    }
}

proof fn lemma_joined_push(entries: Seq<ChoiceView>, c: ChoiceView)
    requires
        entries.len() > 0,
    ensures
        joined(entries.push(c)) == joined(entries).push('/').push('/') + choice_text(c),
    decreases entries.len(),
{
    let more = entries.push(c);
    assert(more[0] == entries[0]);
    if entries.len() == 1 {
        assert(more.drop_first() == seq![c]);
        assert(joined(seq![c]) == choice_text(c));
    } else {
        assert(more.drop_first() == entries.drop_first().push(c));
        lemma_joined_push(entries.drop_first(), c);
        let g = choice_text(entries[0]).push('/').push('/');
        let j = joined(entries.drop_first());
        assert(g + (j.push('/').push('/') + choice_text(c)) == (g + j).push('/').push('/')
            + choice_text(c));
    }
}

/// The text of a set of entries is a `//` and then the entries' texts with
/// a `//` between each two.
proof fn lemma_choices_text_joined(entries: Seq<ChoiceView>)
    requires
        entries.len() > 0,
    ensures
        choices_text(entries) == seq!['/', '/'] + joined(entries),
    decreases entries.len(),
{
    let front = entries.drop_last();
    let last = choice_text(entries.last());
    if entries.len() == 1 {
        assert(choices_text(front) == Seq::<char>::empty());
        assert(Seq::<char>::empty().push('/').push('/') == seq!['/', '/']);
    } else {
        lemma_choices_text_joined(front);
        lemma_joined_push(front, entries.last());
        assert(front.push(entries.last()) == entries);
        assert((seq!['/', '/'] + joined(front)).push('/').push('/') + last == seq!['/', '/'] + (
        joined(front).push('/').push('/') + last));
    }
}

proof fn lemma_joined_shape(entries: Seq<ChoiceView>)
    requires
        entries.len() > 0,
        all_writable(entries),
    ensures
        joined(entries).len() > 0,
        is_digit(joined(entries)[0]),
{
    lemma_choice_text_shape(entries[0]);
}

/// Where the reading of a group stops, given an index that ends it and a
/// stretch before that index that does not.
proof fn lemma_group_stop_at(s: Seq<char>, start: int, i: int, k: int)
    requires
        0 <= start <= i <= k <= s.len(),
        forall|j: int| i <= j < k ==> !closes(s, start, j),
        k == s.len() || closes(s, start, k),
    ensures
        group_stop(s, start, i) == k,
    decreases k - i,
{
    if i < k {
        lemma_group_stop_at(s, start, i + 1, k);
    }
}

proof fn lemma_find_pair_at(s: Seq<char>, i: int, k: int)
    requires
        0 <= i <= k <= s.len(),
        forall|j: int| i <= j < k ==> !pair_at(s, j),
        k == s.len() || pair_at(s, k),
    ensures
        find_pair_from(s, i) == k,
    decreases k - i,
{
    if i < k {
        lemma_find_pair_at(s, i + 1, k);
    }
}

/// What stands before a group does not change where its reading stops.
proof fn lemma_group_stop_shift(p: Seq<char>, s: Seq<char>, start: int, i: int)
    requires
        0 <= start <= i <= s.len(),
    ensures
        group_stop(p + s, p.len() + start, p.len() + i) == p.len() + group_stop(s, start, i),
    decreases s.len() - i,
{
    let whole = p + s;
    if i < s.len() {
        assert(whole[p.len() + i] == s[i]);
        if start + 2 <= i {
            assert(whole[p.len() + i - 2] == s[i - 2]);
            assert(whole[p.len() + i - 1] == s[i - 1]);
        }
        assert(closes(whole, p.len() + start, p.len() + i) == closes(s, start, i));
        if !closes(s, start, i) {
            lemma_group_stop_shift(p, s, start, i + 1);
        }
    }
}

/// What stands before the groups does not change what they mean.
proof fn lemma_groups_shift(p: Seq<char>, s: Seq<char>, start: int, acc: Seq<ChoiceView>)
    requires
        0 <= start <= s.len(),
    ensures
        groups_of_text(p + s, p.len() + start, acc) == groups_of_text(s, start, acc),
    decreases s.len() - start,
{
    let whole = p + s;
    if start < s.len() {
        lemma_group_stop_shift(p, s, start, start);
        lemma_group_stop(s, start, start);
        let stop = group_stop(s, start, start);
        assert(whole.subrange(p.len() + start, p.len() + stop) == s.subrange(start, stop));
        match choice_of_text(unclosed(s.subrange(start, stop))) {
            Err(e) => {},
            Ok(c) => {
                lemma_groups_shift(p, s, stop, put(acc, c));
            },
        }
    }
}

/// Putting in a constraint on a class that has none yet adds it at the end.
proof fn lemma_put_new(acc: Seq<ChoiceView>, c: ChoiceView)
    requires
        forall|j: int| 0 <= j < acc.len() ==> acc[j].class != c.class,
    ensures
        put(acc, c) == acc.push(c),
{
    lemma_slot_from(acc, c.class, 0);
}

/// The joined texts of entries that can be written mean those entries.
proof fn lemma_groups_round_trip(entries: Seq<ChoiceView>, acc: Seq<ChoiceView>)
    requires
        entries.len() > 0,
        all_writable(entries),
        ordered(entries),
        distinct(acc + entries),
    ensures
        groups_of_text(joined(entries), 0, acc) == Ok::<Seq<ChoiceView>, PasswordParseErrorView>(
            acc + entries,
        ),
    decreases entries.len(),
{
    let first = entries[0];
    let g = choice_text(first);
    let j = joined(entries);
    let all = acc + entries;
    lemma_choice_text_shape(first);
    lemma_choice_round_trip(first);
    assert forall|k: int| 0 <= k < acc.len() implies acc[k].class != first.class by {
        assert(all[k] == acc[k]);
        assert(all[acc.len() as int] == first);
    }
    lemma_put_new(acc, first);
    let next = acc.push(first);
    if entries.len() == 1 {
        assert forall|k: int| 0 <= k < g.len() implies !closes(g, 0, k) by {
            assert(!pair_at(g, k - 2));
        }
        lemma_group_stop_at(g, 0, 0, g.len() as int);
        assert(j == g);
        assert(g.subrange(0, g.len() as int) == g);
        assert(!pair_at(g, g.len() - 2));
        assert(unclosed(g) == g);
        assert(next == all);
        assert(groups_of_text(j, g.len() as int, next) == Ok::<
            Seq<ChoiceView>,
            PasswordParseErrorView,
        >(next));
        assert(groups_of_text(j, 0, acc) == groups_of_text(j, g.len() as int, next));
    } else {
        let tail = entries.drop_first();
        let rest = joined(tail);
        let head = g.push('/').push('/');
        let stop = g.len() + 2;
        assert forall|k: int| 0 <= k < tail.len() implies (#[trigger] tail[k]).min <= tail[k].max
            && is_writable(tail[k].class) by {
            assert(tail[k] == entries[k + 1]);
        }
        assert(ordered(tail));
        lemma_joined_shape(tail);
        assert(j == head + rest);
        assert(j[stop as int] == rest[0]);
        assert(j[stop - 1] == '/');
        assert(j[stop - 2] == '/');
        assert forall|k: int| 0 <= k < stop implies !closes(j, 0, k) by {
            if 2 <= k {
                if k - 1 < g.len() {
                    assert(!pair_at(g, k - 2));
                    assert(j[k - 2] == g[k - 2]);
                    assert(j[k - 1] == g[k - 1]);
                }
            }
        }
        assert(closes(j, 0, stop as int));
        lemma_group_stop_at(j, 0, 0, stop as int);
        assert(j.subrange(0, stop as int) == head);
        assert(pair_at(head, head.len() - 2));
        assert(head.take(head.len() - 2) == g);
        assert(unclosed(head) == g);
        assert(groups_of_text(j, 0, acc) == groups_of_text(j, stop as int, next));
        lemma_groups_shift(head, rest, 0, next);
        assert(next + tail == all);
        lemma_groups_round_trip(tail, next);
    }
}

/// A specification reads back from its text, where the classes of its
/// constraints can be written: parsing the text gives the same length and
/// the same constraints in the same order.
pub proof fn lemma_spec_round_trip(spec: PasswordSpecView)
    requires
        well_formed(spec.choices),
        all_writable(spec.choices),
    ensures
        spec_of_text(spec_text(spec)) == Ok::<PasswordSpecView, PasswordParseErrorView>(spec),
{
    let digits = decimal_text(spec.length as nat);
    let t = spec_text(spec);
    let n = digits.len() as int;
    lemma_decimal_text(spec.length as nat);
    lemma_number_round_trip(spec.length);
    assert(t[0] == digits[0]);
    lemma_trimmed_start_same(t);
    assert forall|j: int| 0 <= j < n implies !pair_at(t, j) by {
        assert(t[j] == digits[j]);
    }
    assert(!(digits[0] == '+'));
    assert(signed_number_of(digits) == Some(spec.length));
    if spec.choices.len() == 0 {
        assert(pair_at(t, n));
        lemma_find_pair_at(t, 0, n);
        assert(t.take(n) == digits);
        assert(t.skip(n + 2) == Seq::<char>::empty());
        assert(spec.choices == Seq::<ChoiceView>::empty());
        assert(groups_of_text(Seq::<char>::empty(), 0, Seq::empty()) == Ok::<
            Seq<ChoiceView>,
            PasswordParseErrorView,
        >(Seq::empty()));
    } else {
        lemma_choices_text_joined(spec.choices);
        let rest = joined(spec.choices);
        assert(t == digits + (seq!['/', '/'] + rest));
        assert(t[n] == '/');
        assert(t[n + 1] == '/');
        lemma_joined_shape(spec.choices);
        assert(pair_at(t, n));
        lemma_find_pair_at(t, 0, n);
        assert(t.take(n) == digits);
        assert(t.skip(n + 2) == rest);
        assert(Seq::<ChoiceView>::empty() + spec.choices == spec.choices);
        lemma_groups_round_trip(spec.choices, Seq::empty());
    }
}

} // verus!
