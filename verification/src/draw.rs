//! What it means for a text to be drawn from a set of constraints, and what
//! follows from it.
//!
//! A draw hands each constraint a part: some characters of its class, at
//! least as many as its lower bound and at most as many as its upper bound.
//! The text drawn is the parts put together, in any order.
use crate::choice::ChoiceView;
use vstd::prelude::*;
use vstd::seq_lib::lemma_multiset_commutative;

verus! {

/// The sum of the lower bounds.
pub open spec fn total_min(entries: Seq<ChoiceView>) -> int
    decreases entries.len(),
{
    if entries.len() == 0 {
        0
    } else {
        total_min(entries.drop_last()) + entries.last().min
    }
}

/// The sum of the upper bounds.
pub open spec fn total_max(entries: Seq<ChoiceView>) -> int
    decreases entries.len(),
{
    if entries.len() == 0 {
        0
    } else {
        total_max(entries.drop_last()) + entries.last().max
    }
}

/// A sum as a `usize` holds it when every addition saturates.
pub open spec fn saturated(n: int) -> int {
    if n > usize::MAX {
        usize::MAX as int
    } else {
        n
    }
}

/// How many characters of `s` belong to `pool`.
pub open spec fn occurrences(s: Seq<char>, pool: Seq<char>) -> nat
    decreases s.len(),
{
    if s.len() == 0 {
        0
    } else {
        occurrences(s.drop_last(), pool) + if pool.contains(s.last()) {
            1nat
        } else {
            0nat
        }
    }
}

/// Whether `part` can be what was drawn for the constraint `c`.
pub open spec fn within(part: Seq<char>, c: ChoiceView) -> bool {
    &&& c.min <= part.len() <= c.max
    &&& forall|k: int| 0 <= k < part.len() ==> c.class.chars().contains(#[trigger] part[k])
}

/// Whether `out` is made of `parts`, one for each entry and within it.
pub open spec fn drawn_from(
    entries: Seq<ChoiceView>,
    parts: Seq<Seq<char>>,
    out: Seq<char>,
) -> bool {
    &&& parts.len() == entries.len()
    &&& forall|i: int| 0 <= i < entries.len() ==> within(#[trigger] parts[i], entries[i])
    &&& out.to_multiset() == parts.flatten().to_multiset()
}

/// Whether `out` can be drawn from `entries`.
pub open spec fn is_draw(entries: Seq<ChoiceView>, out: Seq<char>) -> bool {
    exists|parts: Seq<Seq<char>>| drawn_from(entries, parts, out)
}

/// Whether no two characters of `a` and `b` are the same.
pub open spec fn disjoint(a: Seq<char>, b: Seq<char>) -> bool {
    forall|c: char| !(a.contains(c) && b.contains(c))
}

/// Whether the part of entry `j` may hold characters of the class of entry
/// `i`: it is entry `i` itself, or it may be drawn from and its class has a
/// character in common with that of entry `i`.
pub open spec fn shares(entries: Seq<ChoiceView>, i: int, j: int) -> bool {
    j == i || (entries[j].max > 0 && !disjoint(
        entries[j].class.chars(),
        entries[i].class.chars(),
    ))
}

/// Whether the class of entry `i` shares no character with the class of any
/// other entry that may be drawn from.
pub open spec fn alone(entries: Seq<ChoiceView>, i: int) -> bool {
    forall|j: int| 0 <= j < entries.len() && j != i ==> !#[trigger] shares(entries, i, j)
}

/// The sum of the upper bounds of the entries before `n` that share with
/// entry `i`.
pub open spec fn shared_max(entries: Seq<ChoiceView>, i: int, n: int) -> int
    decreases n,
{
    if n <= 0 {
        0
    } else {
        shared_max(entries, i, n - 1) + if shares(entries, i, n - 1) {
            entries[n - 1].max as int
        } else {
            0
        }
    }
}

/// The sum of the lower bounds of the entries before `n` that do not share
/// with entry `i`.
pub open spec fn other_min(entries: Seq<ChoiceView>, i: int, n: int) -> int
    decreases n,
{
    if n <= 0 {
        0
    } else {
        other_min(entries, i, n - 1) + if shares(entries, i, n - 1) {
            0
        } else {
            entries[n - 1].min as int
        }
    }
}

/// The most characters of the class of entry `i` that a draw of the given
/// length can hold: no more than the entries that share with entry `i` may
/// draw together, and no more than the other entries leave of the length.
pub open spec fn most(entries: Seq<ChoiceView>, i: int, length: int) -> int {
    let shared = shared_max(entries, i, entries.len() as int);
    let left = length - other_min(entries, i, entries.len() as int);
    if shared <= left {
        shared
    } else {
        left
    }
}

// ---------------------------------------------------------------------------
// Sums
// ---------------------------------------------------------------------------

pub proof fn lemma_totals_bounds(entries: Seq<ChoiceView>)
    ensures
        0 <= total_min(entries),
        0 <= total_max(entries),
        entries.len() == 0 ==> total_max(entries) == 0,
    decreases entries.len(),
{
    if entries.len() > 0 {
        lemma_totals_bounds(entries.drop_last());
    }
}

pub proof fn lemma_total_max_update(entries: Seq<ChoiceView>, i: int, c: ChoiceView)
    requires
        0 <= i < entries.len(),
    ensures
        total_max(entries.update(i, c)) == total_max(entries) - entries[i].max + c.max,
    decreases entries.len(),
{
    let next = entries.update(i, c);
    if i == entries.len() - 1 {
        assert(next.drop_last() == entries.drop_last());
    } else {
        assert(next.drop_last() == entries.drop_last().update(i, c));
        lemma_total_max_update(entries.drop_last(), i, c);
    }
}

pub proof fn lemma_total_max_remove(entries: Seq<ChoiceView>, i: int)
    requires
        0 <= i < entries.len(),
    ensures
        total_max(entries.remove(i)) == total_max(entries) - entries[i].max,
    decreases entries.len(),
{
    let next = entries.remove(i);
    if i == entries.len() - 1 {
        assert(next == entries.drop_last());
    } else {
        assert(next.drop_last() == entries.drop_last().remove(i));
        assert(next.last() == entries.last());
        lemma_total_max_remove(entries.drop_last(), i);
    }
}

// ---------------------------------------------------------------------------
// Counting
// ---------------------------------------------------------------------------

pub proof fn lemma_occurrences_concat(a: Seq<char>, b: Seq<char>, pool: Seq<char>)
    ensures
        occurrences(a + b, pool) == occurrences(a, pool) + occurrences(b, pool),
    decreases b.len(),
{
    if b.len() == 0 {
        assert(a + b == a);
    } else {
        assert((a + b).drop_last() == a + b.drop_last());
        assert((a + b).last() == b.last());
        lemma_occurrences_concat(a, b.drop_last(), pool);
    }
}

pub proof fn lemma_occurrences_remove(s: Seq<char>, k: int, pool: Seq<char>)
    requires
        0 <= k < s.len(),
    ensures
        occurrences(s, pool) == occurrences(s.remove(k), pool) + if pool.contains(s[k]) {
            1nat
        } else {
            0nat
        },
    decreases s.len(),
{
    if k == s.len() - 1 {
        assert(s.remove(k) == s.drop_last());
    } else {
        assert(s.remove(k).drop_last() == s.drop_last().remove(k));
        assert(s.remove(k).last() == s.last());
        lemma_occurrences_remove(s.drop_last(), k, pool);
    }
}

/// The count does not depend on the order of the characters.
pub proof fn lemma_occurrences_permutation(a: Seq<char>, b: Seq<char>, pool: Seq<char>)
    requires
        a.to_multiset() == b.to_multiset(),
    ensures
        occurrences(a, pool) == occurrences(b, pool),
    decreases a.len(),
{
    broadcast use vstd::seq_lib::group_to_multiset_ensures;

    a.to_multiset_ensures();
    b.to_multiset_ensures();
    if a.len() == 0 {
        assert(b.len() == 0);
    } else {
        let x = a.last();
        let front = a.drop_last();
        assert(a == front.push(x));
        front.to_multiset_ensures();
        assert(a.to_multiset().count(x) > 0);
        assert(b.contains(x));
        let k = choose|k: int| 0 <= k < b.len() && b[k] == x;
        let rest = b.remove(k);
        assert(rest.to_multiset() =~= b.to_multiset().remove(x));
        assert(front.to_multiset() =~= a.to_multiset().remove(x));
        lemma_occurrences_permutation(front, rest, pool);
        lemma_occurrences_remove(b, k, pool);
    }
}

/// A text made of characters of the pool counts in full.
pub proof fn lemma_occurrences_all(part: Seq<char>, pool: Seq<char>)
    requires
        forall|k: int| 0 <= k < part.len() ==> pool.contains(#[trigger] part[k]),
    ensures
        occurrences(part, pool) == part.len(),
    decreases part.len(),
{
    if part.len() > 0 {
        lemma_occurrences_all(part.drop_last(), pool);
    }
}

/// A text without characters of the pool counts for nothing.
pub proof fn lemma_occurrences_none(part: Seq<char>, pool: Seq<char>)
    requires
        forall|k: int| 0 <= k < part.len() ==> !pool.contains(#[trigger] part[k]),
    ensures
        occurrences(part, pool) == 0,
    decreases part.len(),
{
    if part.len() > 0 {
        lemma_occurrences_none(part.drop_last(), pool);
    }
}

/// The parts put together hold at least what part `i` holds.
pub proof fn lemma_occurrences_flatten_least(parts: Seq<Seq<char>>, i: int, pool: Seq<char>)
    requires
        0 <= i < parts.len(),
    ensures
        occurrences(parts.flatten(), pool) >= occurrences(parts[i], pool),
    decreases parts.len(),
{
    lemma_occurrences_concat(parts.first(), parts.drop_first().flatten(), pool);
    if i > 0 {
        lemma_occurrences_flatten_least(parts.drop_first(), i - 1, pool);
    }
}

/// No more characters of a text belong to a pool than the text has.
pub proof fn lemma_occurrences_bounded(part: Seq<char>, pool: Seq<char>)
    ensures
        occurrences(part, pool) <= part.len(),
    decreases part.len(),
{
    if part.len() > 0 {
        lemma_occurrences_bounded(part.drop_last(), pool);
    }
}

/// Adding characters to one part adds them to the parts put together.
pub proof fn lemma_flatten_extend(parts: Seq<Seq<char>>, i: int, extra: Seq<char>)
    requires
        0 <= i < parts.len(),
    ensures
        parts.update(i, parts[i] + extra).flatten().to_multiset() == parts.flatten().to_multiset().add(
            extra.to_multiset(),
        ),
    decreases parts.len(),
{
    let next = parts.update(i, parts[i] + extra);
    let rest = parts.drop_first();
    lemma_multiset_commutative(parts.first(), rest.flatten());
    lemma_multiset_commutative(next.first(), next.drop_first().flatten());
    if i == 0 {
        assert(next.drop_first() == rest);
        lemma_multiset_commutative(parts[0], extra);
        assert(next.flatten().to_multiset() =~= parts.flatten().to_multiset().add(
            extra.to_multiset(),
        ));
    } else {
        assert(next.drop_first() == rest.update(i - 1, rest[i - 1] + extra));
        lemma_flatten_extend(rest, i - 1, extra);
        assert(next.flatten().to_multiset() =~= parts.flatten().to_multiset().add(
            extra.to_multiset(),
        ));
    }
}

/// Parts without characters give no characters.
pub proof fn lemma_flatten_empty(parts: Seq<Seq<char>>)
    requires
        forall|i: int| 0 <= i < parts.len() ==> (#[trigger] parts[i]).len() == 0,
    ensures
        parts.flatten() == Seq::<char>::empty(),
    decreases parts.len(),
{
    if parts.len() > 0 {
        lemma_flatten_empty(parts.drop_first());
        assert(parts.first() + parts.drop_first().flatten() == Seq::<char>::empty());
    }
}

// ---------------------------------------------------------------------------
// What holds of every draw
// ---------------------------------------------------------------------------

/// A draw holds, for each constraint, at least as many characters of its
/// class as its lower bound asks for.
pub proof fn lemma_minimum_met(entries: Seq<ChoiceView>, out: Seq<char>, i: int)
    requires
        is_draw(entries, out),
        0 <= i < entries.len(),
    ensures
        occurrences(out, entries[i].class.chars()) >= entries[i].min,
{
    let parts = choose|parts: Seq<Seq<char>>| drawn_from(entries, parts, out);
    let pool = entries[i].class.chars();
    assert(within(parts[i], entries[i]));
    lemma_occurrences_all(parts[i], pool);
    lemma_occurrences_flatten_least(parts, i, pool);
    lemma_occurrences_permutation(out, parts.flatten(), pool);
}

/// The first `n` parts together hold no more characters of the class of
/// entry `i` than the entries that share with it may draw, and leave room
/// for what the other entries must draw.
proof fn lemma_parts_bound(entries: Seq<ChoiceView>, parts: Seq<Seq<char>>, i: int, n: int)
    requires
        parts.len() == entries.len(),
        forall|k: int| 0 <= k < entries.len() ==> within(#[trigger] parts[k], entries[k]),
        0 <= i < entries.len(),
        0 <= n <= entries.len(),
    ensures
        occurrences(parts.take(n).flatten(), entries[i].class.chars()) <= shared_max(entries, i, n),
        occurrences(parts.take(n).flatten(), entries[i].class.chars()) + other_min(entries, i, n)
            <= parts.take(n).flatten().len(),
    decreases n,
{
    let pool = entries[i].class.chars();
    if n > 0 {
        let front = parts.take(n - 1);
        let part = parts[n - 1];
        lemma_parts_bound(entries, parts, i, n - 1);
        assert(parts.take(n) == front.push(part));
        front.lemma_flatten_push(part);
        lemma_occurrences_concat(front.flatten(), part, pool);
        lemma_occurrences_bounded(part, pool);
        assert(within(part, entries[n - 1]));
        if !shares(entries, i, n - 1) {
            if entries[n - 1].max > 0 {
                assert forall|k: int| 0 <= k < part.len() implies !pool.contains(
                    #[trigger] part[k],
                ) by {
                    assert(entries[n - 1].class.chars().contains(part[k]));
                }
            }
            lemma_occurrences_none(part, pool);
        }
    } else {
        assert(parts.take(0).flatten() == Seq::<char>::empty());
    }
}

/// A draw holds no more characters of the class of a constraint than the
/// constraints that share characters with it may draw together, and no more
/// than the other constraints leave of its length.
pub proof fn lemma_maximum_bound(entries: Seq<ChoiceView>, out: Seq<char>, i: int)
    requires
        is_draw(entries, out),
        0 <= i < entries.len(),
    ensures
        occurrences(out, entries[i].class.chars()) <= most(entries, i, out.len() as int),
{
    let parts = choose|parts: Seq<Seq<char>>| drawn_from(entries, parts, out);
    let pool = entries[i].class.chars();
    lemma_parts_bound(entries, parts, i, entries.len() as int);
    assert(parts.take(entries.len() as int) == parts);
    lemma_occurrences_permutation(out, parts.flatten(), pool);
    out.to_multiset_ensures();
    parts.flatten().to_multiset_ensures();
}

/// Where the class of entry `i` stands alone, only entry `i` itself shares
/// with it.
proof fn lemma_alone_shared(entries: Seq<ChoiceView>, i: int, n: int)
    requires
        0 <= i < entries.len(),
        0 <= n <= entries.len(),
        alone(entries, i),
    ensures
        shared_max(entries, i, n) == if i < n {
            entries[i].max as int
        } else {
            0
        },
    decreases n,
{
    if n > 0 {
        lemma_alone_shared(entries, i, n - 1);
        if n - 1 != i {
            assert(!shares(entries, i, n - 1));
        }
    }
}

/// A draw holds, for each constraint whose class stands alone, at most as
/// many characters of its class as its upper bound allows.
pub proof fn lemma_maximum_kept(entries: Seq<ChoiceView>, out: Seq<char>, i: int)
    requires
        is_draw(entries, out),
        0 <= i < entries.len(),
        alone(entries, i),
    ensures
        occurrences(out, entries[i].class.chars()) <= entries[i].max,
{
    lemma_maximum_bound(entries, out, i);
    lemma_alone_shared(entries, i, entries.len() as int);
}

/// A draw is as long as its parts together, so it is no shorter than the
/// lower bounds ask for and no longer than the upper bounds allow.
pub proof fn lemma_draw_length(entries: Seq<ChoiceView>, out: Seq<char>)
    requires
        is_draw(entries, out),
    ensures
        total_min(entries) <= out.len() <= total_max(entries),
{
    let parts = choose|parts: Seq<Seq<char>>| drawn_from(entries, parts, out);
    lemma_parts_length(entries, parts);
    out.to_multiset_ensures();
    parts.flatten().to_multiset_ensures();
}

proof fn lemma_parts_length(entries: Seq<ChoiceView>, parts: Seq<Seq<char>>)
    requires
        parts.len() == entries.len(),
        forall|i: int| 0 <= i < entries.len() ==> within(#[trigger] parts[i], entries[i]),
    ensures
        total_min(entries) <= parts.flatten().len() <= total_max(entries),
    decreases entries.len(),
{
    if entries.len() > 0 {
        let front = parts.drop_last();
        assert(within(parts[entries.len() - 1], entries.last()));
        assert forall|i: int| 0 <= i < entries.len() - 1 implies within(
            #[trigger] front[i],
            entries.drop_last()[i],
        ) by {
            assert(within(parts[i], entries[i]));
        }
        lemma_parts_length(entries.drop_last(), front);
        assert(parts == front.push(parts.last()));
        front.lemma_flatten_push(parts.last());
    } else {
        assert(parts.flatten() == Seq::<char>::empty());
    }
}

} // verus!
