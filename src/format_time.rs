//! Time units, the formatter's configuration and the decomposition of a duration.
use crate::text::{decimal, join_list, list_text, phrase, unit_phrase, views};
use itertools::Itertools;
use vstd::prelude::*;

verus! {

/// A rank on the ladder of time units, ordered by length.
#[derive(Clone, Copy, PartialEq, Eq, Structural, PartialOrd, Ord, Hash, Debug)]
pub enum TimeUnit {
    Nanosecond,
    Microsecond,
    Millisecond,
    Second,
    Minute,
    Hour,
    Day,
}


/// Nanoseconds in the unit of rank `i` (ranks above 6 count as a day).
pub open spec fn factor(i: nat) -> nat {
    if i == 0 {
        1
    } else if i == 1 {
        1000
    } else if i == 2 {
        1000000
    } else if i == 3 {
        1000000000
    } else if i == 4 {
        60000000000
    } else if i == 5 {
        3600000000000
    } else {
        86400000000000
    }
}

/// The singular English name of the unit of rank `i`.
pub open spec fn unit_name(i: nat) -> Seq<char> {
    if i == 0 {
        "nanosecond"@
    } else if i == 1 {
        "microsecond"@
    } else if i == 2 {
        "millisecond"@
    } else if i == 3 {
        "second"@
    } else if i == 4 {
        "minute"@
    } else if i == 5 {
        "hour"@
    } else {
        "day"@
    }
}

impl TimeUnit {
    /// Position on the ladder: 0 for a nanosecond up to 6 for a day.
    pub open spec fn rank(self) -> nat {
        match self {
            TimeUnit::Nanosecond => 0,
            TimeUnit::Microsecond => 1,
            TimeUnit::Millisecond => 2,
            TimeUnit::Second => 3,
            TimeUnit::Minute => 4,
            TimeUnit::Hour => 5,
            TimeUnit::Day => 6,
        }
    }

    /// The unit of rank `i`, or a nanosecond where `i` is not a rank.
    pub open spec fn of_rank(i: int) -> TimeUnit {
        if i == 6 {
            TimeUnit::Day
        } else if i == 5 {
            TimeUnit::Hour
        } else if i == 4 {
            TimeUnit::Minute
        } else if i == 3 {
            TimeUnit::Second
        } else if i == 2 {
            TimeUnit::Millisecond
        } else if i == 1 {
            TimeUnit::Microsecond
        } else {
            TimeUnit::Nanosecond
        }
    }

    /// The rank of this unit, from 0 for a nanosecond up to 6 for a day.
    pub fn index(self) -> (r: usize)
        ensures
            r as nat == self.rank(),
            r < 7,
    {
        match self {
            TimeUnit::Nanosecond => 0,
            TimeUnit::Microsecond => 1,
            TimeUnit::Millisecond => 2,
            TimeUnit::Second => 3,
            TimeUnit::Minute => 4,
            TimeUnit::Hour => 5,
            TimeUnit::Day => 6,
        }
    }

    /// The unit `n` ranks below this one, stopping at a nanosecond.
    pub fn lowered(self, n: usize) -> (r: TimeUnit)
        ensures
            r == TimeUnit::of_rank(self.rank() - n),
            r.rank() == if n <= self.rank() { self.rank() - n } else { 0 },
    {
        let i = self.index();
        if n > i {
            return TimeUnit::Nanosecond;
        }
        let k = i - n;
        if k == 6 {
            TimeUnit::Day
        } else if k == 5 {
            TimeUnit::Hour
        } else if k == 4 {
            TimeUnit::Minute
        } else if k == 3 {
            TimeUnit::Second
        } else if k == 2 {
            TimeUnit::Millisecond
        } else if k == 1 {
            TimeUnit::Microsecond
        } else {
            TimeUnit::Nanosecond
        }
    }
}

impl core::ops::SubAssign<usize> for TimeUnit {
    /// Moves `rhs` ranks down the ladder.
    fn sub_assign(&mut self, rhs: usize)
        requires
            rhs as nat <= old(self).rank(),
        ensures
            *final(self) == TimeUnit::of_rank(old(self).rank() - rhs),
            final(self).rank() == old(self).rank() - rhs,
    {
        *self = self.lowered(rhs);
    }
}

/// Nanoseconds in the unit of rank `i`.
pub fn unit_factor(i: usize) -> (r: u128)
    requires
        i < 7,
    ensures
        r as nat == factor(i as nat),
{
    if i == 0 {
        1
    } else if i == 1 {
        1000
    } else if i == 2 {
        1000000
    } else if i == 3 {
        1000000000
    } else if i == 4 {
        60000000000
    } else if i == 5 {
        3600000000000
    } else {
        86400000000000
    }
}

/// The singular English name of the unit of rank `i`.
pub fn unit_name_str(i: usize) -> (r: &'static str)
    requires
        i < 7,
    ensures
        r@ == unit_name(i as nat),
{
    if i == 0 {
        "nanosecond"
    } else if i == 1 {
        "microsecond"
    } else if i == 2 {
        "millisecond"
    } else if i == 3 {
        "second"
    } else if i == 4 {
        "minute"
    } else if i == 5 {
        "hour"
    } else {
        "day"
    }
}


/// Where the downward walk from rank `i` stops: the first rank whose factor
/// does not exceed `d`, or a nanosecond.
pub open spec fn walk_down(d: nat, i: nat) -> nat
    decreases i,
{
    if i == 0 || factor(i) <= d {
        i
    } else {
        walk_down(d, (i - 1) as nat)
    }
}

/// The effective top unit: the largest unit not above `max` that fits in `d`.
/// A zero duration has no such unit and is shown in the `min` unit.
pub open spec fn top_rank(d: nat, min: nat, max: nat) -> nat {
    if d == 0 {
        min
    } else {
        walk_down(d, max)
    }
}

/// How many whole units of rank `i` remain once the larger units are taken out.
pub open spec fn magnitude(d: nat, i: nat) -> nat {
    (d % factor(i + 1)) / factor(i)
}

/// The units of ranks `lo` up to (not including) `hi` with a nonzero magnitude,
/// each with that magnitude, in ascending order.
pub open spec fn lower_entries(d: nat, lo: nat, hi: nat) -> Seq<(nat, nat)>
    decreases hi,
{
    if hi <= lo {
        Seq::empty()
    } else {
        let i = (hi - 1) as nat;
        let rest = lower_entries(d, lo, i);
        if magnitude(d, i) > 0 {
            rest.push((i, magnitude(d, i)))
        } else {
            rest
        }
    }
}

/// The units shown for `d` with bounds `min..=max`, largest first, as
/// (rank, magnitude): the effective top unit with `d` divided by its factor,
/// then every lower unit down to `min` whose magnitude is nonzero.
pub open spec fn decomposition(d: nat, min: nat, max: nat) -> Seq<(nat, nat)> {
    let top = top_rank(d, min, max);
    seq![(top, d / factor(top))] + lower_entries(d, min, top).reverse()
}

/// The phrase of each (rank, magnitude) entry.
pub open spec fn entry_phrases(entries: Seq<(nat, nat)>) -> Seq<Seq<char>> {
    entries.map_values(|e: (nat, nat)| phrase(e.1, unit_name(e.0)))
}

/// The text shown for `d` with bounds `min..=max`.
pub open spec fn formatted(d: nat, min: nat, max: nat) -> Seq<char> {
    list_text(entry_phrases(decomposition(d, min, max)))
}

/// `x` comes after or equals `y` in the lexicographic order of pairs.
pub open spec fn pair_ge(x: (usize, u128), y: (usize, u128)) -> bool {
    x.0 > y.0 || (x.0 == y.0 && x.1 >= y.1)
}

/// The pairs as mathematical integers.
pub open spec fn entries_model(v: Seq<(usize, u128)>) -> Seq<(nat, nat)> {
    v.map_values(|e: (usize, u128)| (e.0 as nat, e.1 as nat))
}

/// Relies on itertools' `Itertools::sorted`, which collects the items and sorts
/// them ascending by `Ord` (lexicographic for pairs).
#[verifier::external_body]
fn sorted_ascending(entries: Vec<(usize, u128)>) -> (r: Vec<(usize, u128)>)
    ensures
        r@.to_multiset() == entries@.to_multiset(),
        forall|a: int, b: int| 0 <= a < b < r@.len() ==> pair_ge(r@[b], r@[a]),
{
    entries.into_iter().sorted().collect()
}

/// A sequence whose keys strictly decrease is the only non-increasing
/// arrangement of its items.
proof fn lemma_sorted_unique(a: Seq<(usize, u128)>, b: Seq<(usize, u128)>)
    requires
        forall|i: int, j: int| 0 <= i < j < a.len() ==> a[i].0 > a[j].0,
        forall|i: int, j: int| 0 <= i < j < b.len() ==> pair_ge(b[i], b[j]),
        a.to_multiset() == b.to_multiset(),
    ensures
        a == b,
    decreases a.len(),
{
    broadcast use vstd::seq_lib::group_to_multiset_ensures;

    assert(a.len() == a.to_multiset().len());
    assert(b.len() == b.to_multiset().len());
    if a.len() == 0 {
        assert(a =~= b);
    } else {
        assert(a.contains(a[0]));
        assert(b.to_multiset().count(a[0]) > 0);
        assert(b.contains(a[0]));
        let j = choose|j: int| 0 <= j < b.len() && b[j] == a[0];
        assert(pair_ge(b[0], a[0])) by {
            if j > 0 {
                assert(pair_ge(b[0], b[j]));
            }
        }
        assert(b.contains(b[0]));
        assert(a.to_multiset().count(b[0]) > 0);
        assert(a.contains(b[0]));
        let k = choose|k: int| 0 <= k < a.len() && a[k] == b[0];
        if k > 0 {
            assert(a[0].0 > a[k].0);
        }
        assert(a[0] == b[0]);
        assert(a.remove(0) =~= a.drop_first());
        assert(b.remove(0) =~= b.drop_first());
        assert(a.drop_first().to_multiset() == b.drop_first().to_multiset());
        lemma_sorted_unique(a.drop_first(), b.drop_first());
        assert(a.len() == b.len());
        assert forall|i: int| 0 < i < a.len() implies a[i] == b[i] by {
            assert(a[i] == a.drop_first()[i - 1]);
            assert(b[i] == b.drop_first()[i - 1]);
        }
        assert(a =~= b);
    }
}

/// Formats durations with units between a configured largest and smallest.
pub struct TimeFormatter {
    max: TimeUnit,
    min: TimeUnit,
}

impl TimeFormatter {
    /// The largest unit that may be shown.
    pub closed spec fn max_unit(self) -> TimeUnit {
        self.max
    }

    /// The smallest unit that may be shown.
    pub closed spec fn min_unit(self) -> TimeUnit {
        self.min
    }

    /// The bounds are in order.
    pub open spec fn wf(self) -> bool {
        self.min_unit().rank() <= self.max_unit().rank()
    }

    /// This formatter with `u` as its largest unit.
    pub closed spec fn with_max(self, u: TimeUnit) -> Self {
        TimeFormatter { max: u, min: self.min }
    }

    /// This formatter with `u` as its smallest unit.
    pub closed spec fn with_min(self, u: TimeUnit) -> Self {
        TimeFormatter { max: self.max, min: u }
    }

    /// `set_max(u)` is accepted: `u` lies strictly above the smallest unit.
    pub open spec fn accepts_max(self, u: TimeUnit) -> bool {
        u.rank() > self.min_unit().rank()
    }

    /// `set_min(u)` is accepted: `u` lies strictly below the largest unit.
    pub open spec fn accepts_min(self, u: TimeUnit) -> bool {
        u.rank() < self.max_unit().rank()
    }

    /// The formatter as `set_max(u)` leaves it.
    pub open spec fn after_set_max(self, u: TimeUnit) -> Self {
        if self.accepts_max(u) {
            self.with_max(u)
        } else {
            self
        }
    }

    /// The formatter as `set_min(u)` leaves it.
    pub open spec fn after_set_min(self, u: TimeUnit) -> Self {
        if self.accepts_min(u) {
            self.with_min(u)
        } else {
            self
        }
    }

    /// The text that `format` gives for `d` nanoseconds.
    pub open spec fn text(self, d: nat) -> Seq<char> {
        formatted(d, self.min_unit().rank(), self.max_unit().rank())
    }

    /// Creates a formatter from hours down to milliseconds.
    pub fn new() -> (r: Self)
        ensures
            r.max_unit() == TimeUnit::Hour,
            r.min_unit() == TimeUnit::Millisecond,
            r.wf(),
    {
        TimeFormatter { max: TimeUnit::Hour, min: TimeUnit::Millisecond }
    }

    /// Creates a formatter with the given bounds, swapped if out of order.
    pub fn from(max_timeunit: TimeUnit, min_timeunit: TimeUnit) -> (r: Self)
        ensures
            max_timeunit.rank() < min_timeunit.rank() ==> r.max_unit() == min_timeunit
                && r.min_unit() == max_timeunit,
            max_timeunit.rank() >= min_timeunit.rank() ==> r.max_unit() == max_timeunit
                && r.min_unit() == min_timeunit,
            r.wf(),
    {
        if max_timeunit.index() < min_timeunit.index() {
            TimeFormatter { max: min_timeunit, min: max_timeunit }
        } else {
            TimeFormatter { max: max_timeunit, min: min_timeunit }
        }
    }

    /// Changes the largest unit, provided it stays above the smallest.
    pub fn set_max(&mut self, max_timeunit: TimeUnit) -> (r: bool)
        requires
            old(self).wf(),
        ensures
            r == old(self).accepts_max(max_timeunit),
            *final(self) == old(self).after_set_max(max_timeunit),
            final(self).max_unit() == if r {
                max_timeunit
            } else {
                old(self).max_unit()
            },
            final(self).min_unit() == old(self).min_unit(),
            final(self).wf(),
    {
        if max_timeunit.index() > self.min.index() {
            self.max = max_timeunit;
            return true;
        }
        false
    }

    /// Changes the smallest unit, provided it stays below the largest.
    pub fn set_min(&mut self, min_timeunit: TimeUnit) -> (r: bool)
        requires
            old(self).wf(),
        ensures
            r == old(self).accepts_min(min_timeunit),
            *final(self) == old(self).after_set_min(min_timeunit),
            final(self).min_unit() == if r {
                min_timeunit
            } else {
                old(self).min_unit()
            },
            final(self).max_unit() == old(self).max_unit(),
            final(self).wf(),
    {
        if min_timeunit.index() < self.max.index() {
            self.min = min_timeunit;
            return true;
        }
        false
    }

    /// Renders `duration` nanoseconds as English text, largest unit first.
    pub fn format(&self, duration: u128) -> (r: String)
        ensures
            r@ == self.text(duration as nat),
    {
        let ghost d = duration as nat;
        let ghost min = self.min_unit().rank();
        let ghost max = self.max_unit().rank();
        let min_i = self.min.index();

        // find the largest unit within the bounds that fits in the duration
        let mut effective_max = self.max;
        if duration == 0 {
            effective_max = self.min;
        } else {
            while effective_max.index() > 0 && unit_factor(effective_max.index()) > duration
                invariant
                    walk_down(d, effective_max.rank()) == walk_down(d, max),
                    d == duration,
                decreases effective_max.rank(),
            {
                effective_max = effective_max.lowered(1);
            }
        }
        let top = effective_max.index();
        assert(top as nat == top_rank(d, min, max));

        let number = duration / unit_factor(top);
        let mut entries: Vec<(usize, u128)> = Vec::new();
        entries.push((top, number));
        let mut i: usize = min_i;
        while i < top
            invariant
                top < 7,
                min_i == min,
                min_i <= i,
                i <= top || i == min_i,
                d == duration,
                entries@.len() >= 1,
                entries@[0] == (top, number),
                number as nat == d / factor(top as nat),
                entries_model(entries@) == seq![(top as nat, d / factor(top as nat))]
                    + lower_entries(d, min, i as nat),
                forall|k: int| 1 <= k < entries@.len() ==> entries@[k].0 < i && entries@[k].0 < top,
                forall|a: int, b: int|
                    1 <= a < b < entries@.len() ==> entries@[a].0 < entries@[b].0,
            decreases top - i,
        {
            let m = (duration % unit_factor(i + 1)) / unit_factor(i);
            assert(m as nat == magnitude(d, i as nat));
            let ghost before = entries@;
            if m > 0 {
                entries.push((i, m));
                assert(entries_model(entries@) =~= entries_model(before).push((i as nat, m as nat)));
            }
            i = i + 1;
        }
        assert(lower_entries(d, min, i as nat) == lower_entries(d, min, top as nat));

        let ghost v = entries@;
        let sorted = sorted_ascending(entries);
        let ghost desc = sorted@.reverse();
        proof {
            let rest = v.subrange(1, v.len() as int);
            let target = seq![v[0]] + rest.reverse();
            assert(v =~= seq![v[0]] + rest);
            vstd::seq_lib::lemma_multiset_commutative(seq![v[0]], rest);
            vstd::seq_lib::lemma_multiset_commutative(seq![v[0]], rest.reverse());
            rest.lemma_reverse_to_multiset();
            assert forall|a: int, b: int| 0 <= a < b < target.len() implies target[a].0
                > target[b].0 by {
                if a > 0 {
                    assert(target[a] == v[v.len() - a]);
                }
                assert(target[b] == v[v.len() - b]);
            }
            sorted@.lemma_reverse_to_multiset();
            assert forall|a: int, b: int| 0 <= a < b < desc.len() implies pair_ge(
                desc[a],
                desc[b],
            ) by {
                assert(desc[a] == sorted@[sorted@.len() - 1 - a]);
                assert(desc[b] == sorted@[sorted@.len() - 1 - b]);
            }
            lemma_sorted_unique(target, desc);
            assert(entries_model(rest) =~= entries_model(v).subrange(1, v.len() as int));
            assert(entries_model(rest) =~= lower_entries(d, min, top as nat));
            assert(entries_model(target) =~= decomposition(d, min, max));
        }

        // largest unit first
        let n = sorted.len();
        let mut phrases: Vec<String> = Vec::new();
        let mut k: usize = 0;
        while k < n
            invariant
                n == sorted@.len(),
                desc == sorted@.reverse(),
                k <= n,
                phrases@.len() == k,
                forall|j: int| 0 <= j < desc.len() ==> desc[j].0 <= top,
                top < 7,
                forall|j: int|
                    0 <= j < k ==> phrases@[j]@ == phrase(
                        desc[j].1 as nat,
                        unit_name(desc[j].0 as nat),
                    ),
            decreases n - k,
        {
            let (unit, value) = sorted[n - 1 - k];
            assert(desc[k as int] == sorted@[n - 1 - k]);
            phrases.push(unit_phrase(value, unit_name_str(unit)));
            k = k + 1;
        }
        assert(views(phrases@) =~= entry_phrases(entries_model(desc)));
        join_list(&phrases)
    }
}


/// Every entry of `lower_entries` lies in `lo..hi` and has a nonzero magnitude.
proof fn lemma_lower_entries_nonzero(d: nat, lo: nat, hi: nat)
    ensures
        forall|k: int|
            0 <= k < lower_entries(d, lo, hi).len() ==> lower_entries(d, lo, hi)[k].1 > 0
                && lo <= lower_entries(d, lo, hi)[k].0 < hi,
    decreases hi,
{
    if hi > lo {
        let i = (hi - 1) as nat;
        lemma_lower_entries_nonzero(d, lo, i);
        let rest = lower_entries(d, lo, i);
        let all = lower_entries(d, lo, hi);
        assert forall|k: int| 0 <= k < all.len() implies all[k].1 > 0 && lo <= all[k].0 < hi by {
            if k < rest.len() {
                assert(all[k] == rest[k]);
            }
        }
    }
}

/// The walk down from any rank stops at a unit whose factor fits in a
/// nonzero duration.
proof fn lemma_walk_down_fits(d: nat, i: nat)
    requires
        d > 0,
    ensures
        factor(walk_down(d, i)) <= d,
        walk_down(d, i) <= i,
    decreases i,
{
    if i > 0 && factor(i) > d {
        lemma_walk_down_fits(d, (i - 1) as nat);
    }
}

/// No unit is shown with magnitude zero, except a zero duration, which is
/// shown as the single entry "0" of the smallest unit.
pub proof fn lemma_no_zero_units(f: TimeFormatter, d: nat)
    requires
        f.wf(),
    ensures
        ({
            let e = decomposition(d, f.min_unit().rank(), f.max_unit().rank());
            forall|k: int| 0 <= k < e.len() && e[k].1 == 0 ==> e.len() == 1 && d == 0
        }),
{
    let min = f.min_unit().rank();
    let max = f.max_unit().rank();
    let top = top_rank(d, min, max);
    let e = decomposition(d, min, max);
    if d == 0 {
        assert(lower_entries(d, min, top) == Seq::<(nat, nat)>::empty());
        assert(e.len() == 1);
    } else {
        lemma_walk_down_fits(d, max);
        assert(d / factor(top) >= 1) by (nonlinear_arith)
            requires
                factor(top) <= d,
                factor(top) > 0,
        ;
        lemma_lower_entries_nonzero(d, min, top);
        let low = lower_entries(d, min, top);
        assert forall|k: int| 0 < k < e.len() implies e[k].1 > 0 by {
            assert(e[k] == low[low.len() - k]);
        }
    }
}

/// Magnitude 1 is followed by the bare unit name, which never ends in "s";
/// every other magnitude by the name and a trailing "s".
pub proof fn lemma_pluralization(v: nat, i: nat)
    ensures
        v == 1 ==> phrase(v, unit_name(i)) == decimal(v) + " "@ + unit_name(i) && phrase(
            v,
            unit_name(i),
        ).last() != 's',
        v != 1 ==> phrase(v, unit_name(i)) == decimal(v) + " "@ + unit_name(i) + "s"@ && phrase(
            v,
            unit_name(i),
        ).last() == 's',
{
    reveal_strlit("");
    reveal_strlit("s");
    reveal_strlit("nanosecond");
    reveal_strlit("microsecond");
    reveal_strlit("millisecond");
    reveal_strlit("second");
    reveal_strlit("minute");
    reveal_strlit("hour");
    reveal_strlit("day");
    let p = phrase(v, unit_name(i));
    let base = decimal(v) + " "@ + unit_name(i);
    if v == 1 {
        assert(p =~= base);
        assert(p.last() == unit_name(i).last());
    } else {
        assert(p =~= base + "s"@);
    }
}

/// A rejected `set_max` or `set_min` leaves every later output unchanged.
pub proof fn lemma_rejected_bound_keeps_text(f: TimeFormatter, u: TimeUnit, d: nat)
    requires
        f.wf(),
    ensures
        !f.accepts_max(u) ==> f.after_set_max(u).text(d) == f.text(d),
        !f.accepts_min(u) ==> f.after_set_min(u).text(d) == f.text(d),
{
}

} // verus!
