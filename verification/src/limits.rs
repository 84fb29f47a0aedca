//! Out-of-limits checking.
//!
//! The states are ordered, `Unknown < Nominal < Warning < Alarm`, so a display summarising a
//! group of parameters takes the maximum and gets the answer an operator expects.

use core::cmp::Ordering;

use vstd::prelude::*;

use crate::float::Float64;
use crate::text::same_text;
use crate::value::{number_of, Value};

verus! {

/// Where a value sits relative to its limits.
#[derive(Clone, Copy, PartialEq, Eq, Ord, Debug, Structural)]
pub enum LimitState {
    /// No limit is defined for this parameter, or the value is not numeric.
    Unknown,
    /// Inside every limit.
    Nominal,
    /// Outside a warning limit.
    Warning,
    /// Outside an alarm limit.
    Alarm,
}

impl Default for LimitState {
    /// Nothing is known.
    fn default() -> (r: Self)
        ensures
            r == LimitState::Unknown,
    {
        LimitState::Unknown
    }
}

impl LimitState {
    /// How serious a state is.
    pub open spec fn rank(self) -> int {
        match self {
            LimitState::Unknown => 0,
            LimitState::Nominal => 1,
            LimitState::Warning => 2,
            LimitState::Alarm => 3,
        }
    }

    fn seriousness(self) -> (r: u8)
        ensures
            r == self.rank(),
    {
        match self {
            LimitState::Unknown => 0,
            LimitState::Nominal => 1,
            LimitState::Warning => 2,
            LimitState::Alarm => 3,
        }
    }

    /// What a status column shows.
    pub open spec fn text(self) -> Seq<char> {
        match self {
            LimitState::Unknown => "—"@,
            LimitState::Nominal => "ok"@,
            LimitState::Warning => "WARN"@,
            LimitState::Alarm => "ALARM"@,
        }
    }

    /// Whether this state should draw the operator's eye.
    pub fn is_violation(self) -> (r: bool)
        ensures
            r == (self == LimitState::Warning || self == LimitState::Alarm),
    {
        match self {
            LimitState::Warning | LimitState::Alarm => true,
            LimitState::Unknown | LimitState::Nominal => false,
        }
    }

    /// A short label for a status column.
    pub fn label(self) -> (r: &'static str)
        ensures
            r@ == self.text(),
    {
        match self {
            LimitState::Unknown => "—",
            LimitState::Nominal => "ok",
            LimitState::Warning => "WARN",
            LimitState::Alarm => "ALARM",
        }
    }
}

impl PartialOrd for LimitState {
    /// The more serious state is the greater one.
    fn partial_cmp(&self, other: &Self) -> (r: Option<Ordering>) {
        let mine: u8 = self.seriousness();
        let theirs: u8 = other.seriousness();
        if mine < theirs {
            Some(Ordering::Less)
        } else if mine == theirs {
            Some(Ordering::Equal)
        } else {
            Some(Ordering::Greater)
        }
    }
}

impl vstd::std_specs::cmp::PartialOrdSpecImpl for LimitState {
    open spec fn obeys_partial_cmp_spec() -> bool {
        true
    }

    open spec fn partial_cmp_spec(&self, other: &Self) -> Option<Ordering> {
        if self.rank() < other.rank() {
            Some(Ordering::Less)
        } else if self.rank() == other.rank() {
            Some(Ordering::Equal)
        } else {
            Some(Ordering::Greater)
        }
    }
}

/// A range with either end optional. Both ends are inclusive.
#[derive(Clone, Copy, Debug)]
pub struct Range {
    /// Values below this are outside.
    pub low: Option<Float64>,
    /// Values above this are outside.
    pub high: Option<Float64>,
}

impl Default for Range {
    /// A range with no end set.
    fn default() -> (r: Self)
        ensures
            r.low is None,
            r.high is None,
    {
        Range { low: None, high: None }
    }
}

/// Whether two ends are the same: both open, or at numbers that are equal.
pub open spec fn same_end(one: Option<Float64>, other: Option<Float64>) -> bool {
    match (one, other) {
        (Some(a), Some(b)) => a.equal(b),
        (None, None) => true,
        _ => false,
    }
}

/// Whether two ends are the same.
pub(crate) fn ends_agree(one: Option<Float64>, other: Option<Float64>) -> (r: bool)
    ensures
        r == same_end(one, other),
{
    match (one, other) {
        (Some(a), Some(b)) => a.same(b),
        (None, None) => true,
        _ => false,
    }
}

impl PartialEq for Range {
    /// Equal where the doubles are: an end that is not a number equals nothing.
    fn eq(&self, other: &Self) -> (r: bool) {
        ends_agree(self.low, other.low) && ends_agree(self.high, other.high)
    }
}

impl vstd::std_specs::cmp::PartialEqSpecImpl for Range {
    open spec fn obeys_eq_spec() -> bool {
        true
    }

    open spec fn eq_spec(&self, other: &Self) -> bool {
        self.agrees(*other)
    }
}

impl Range {
    /// Whether both ends are the same as another's.
    pub open spec fn agrees(self, other: Range) -> bool {
        same_end(self.low, other.low) && same_end(self.high, other.high)
    }

    /// Whether a number is inside.
    pub open spec fn holds(self, value: Float64) -> bool {
        &&& !value.nan()
        &&& self.low matches Some(low) ==> low.at_most(value)
        &&& self.high matches Some(high) ==> value.at_most(high)
    }

    /// Whether either end is set.
    pub open spec fn bounded(self) -> bool {
        self.low is Some || self.high is Some
    }

    /// A range bounded at both ends.
    pub fn new(low: Float64, high: Float64) -> (r: Self)
        ensures
            r == (Range { low: Some(low), high: Some(high) }),
    {
        Range { low: Some(low), high: Some(high) }
    }

    /// Whether a value is inside this range. What is not a number is inside nothing.
    pub fn contains(&self, value: Float64) -> (r: bool)
        ensures
            r == self.holds(value),
    {
        if value.is_nan() {
            return false;
        }
        let above = match self.low {
            Some(low) => low.le(value),
            None => true,
        };
        let below = match self.high {
            Some(high) => value.le(high),
            None => true,
        };
        above && below
    }

    /// Whether either end is set.
    pub fn is_set(&self) -> (r: bool)
        ensures
            r == self.bounded(),
    {
        self.low.is_some() || self.high.is_some()
    }
}

/// The warning and alarm ranges for one parameter.
#[derive(Clone, Copy, Debug)]
pub struct Limit {
    /// The inner range: outside it is a warning.
    pub warning: Range,
    /// The outer range: outside it is an alarm.
    pub alarm: Range,
}

impl Default for Limit {
    /// No range at all.
    fn default() -> (r: Self)
        ensures
            !r.warning.bounded(),
            !r.alarm.bounded(),
    {
        Limit { warning: Range { low: None, high: None }, alarm: Range { low: None, high: None } }
    }
}

impl PartialEq for Limit {
    /// Equal where the doubles are: an end that is not a number equals nothing.
    fn eq(&self, other: &Self) -> (r: bool) {
        self.warning == other.warning && self.alarm == other.alarm
    }
}

impl vstd::std_specs::cmp::PartialEqSpecImpl for Limit {
    open spec fn obeys_eq_spec() -> bool {
        true
    }

    open spec fn eq_spec(&self, other: &Self) -> bool {
        self.warning.agrees(other.warning) && self.alarm.agrees(other.alarm)
    }
}

impl Limit {
    /// Where a number sits: outside a set alarm range is an alarm, whatever the warning range
    /// says; outside a set warning range is a warning; inside every set range is nominal.
    pub open spec fn state_of(self, value: Float64) -> LimitState {
        if value.nan() {
            LimitState::Unknown
        } else if self.alarm.bounded() && !self.alarm.holds(value) {
            LimitState::Alarm
        } else if self.warning.bounded() && !self.warning.holds(value) {
            LimitState::Warning
        } else if self.alarm.bounded() || self.warning.bounded() {
            LimitState::Nominal
        } else {
            LimitState::Unknown
        }
    }

    /// Where a value sits.
    ///
    /// The alarm range is checked first, so a file whose ranges are the wrong way round still
    /// reports the more serious state.
    pub fn evaluate(&self, value: Float64) -> (r: LimitState)
        ensures
            r == self.state_of(value),
    {
        if value.is_nan() {
            return LimitState::Unknown;
        }
        if self.alarm.is_set() && !self.alarm.contains(value) {
            return LimitState::Alarm;
        }
        if self.warning.is_set() && !self.warning.contains(value) {
            return LimitState::Warning;
        }
        if self.alarm.is_set() || self.warning.is_set() {
            LimitState::Nominal
        } else {
            LimitState::Unknown
        }
    }
}

/// Limits for a whole definition, keyed by qualified parameter name.
#[derive(Clone, Debug)]
pub struct LimitSet {
    entries: Vec<(String, Limit)>,
}

/// The limits of a list of entries, a later one in place of an earlier one of the same name.
pub open spec fn table_of(entries: Seq<(String, Limit)>) -> Map<Seq<char>, Limit>
    decreases entries.len(),
{
    if entries.len() == 0 {
        Map::empty()
    } else {
        table_of(entries.drop_last()).insert(entries.last().0@, entries.last().1)
    }
}

impl View for LimitSet {
    type V = Map<Seq<char>, Limit>;

    closed spec fn view(&self) -> Map<Seq<char>, Limit> {
        table_of(self.entries@)
    }
}

spec fn distinct_names(entries: Seq<(String, Limit)>) -> bool {
    forall|i: int, j: int|
        0 <= i < j < entries.len() ==> (#[trigger] entries[i]).0@ != (#[trigger] entries[j]).0@
}

proof fn lemma_table(entries: Seq<(String, Limit)>)
    requires
        distinct_names(entries),
    ensures
        table_of(entries).dom().finite(),
        table_of(entries).len() == entries.len(),
        forall|name: Seq<char>| #[trigger]
            table_of(entries).contains_key(name) ==> exists|i: int|
                0 <= i < entries.len() && (#[trigger] entries[i]).0@ == name,
        forall|i: int|
            0 <= i < entries.len() ==> table_of(entries).contains_key((#[trigger] entries[i]).0@)
                && table_of(entries)[entries[i].0@] == entries[i].1,
    decreases entries.len(),
{
    if entries.len() > 0 {
        let rest = entries.drop_last();
        assert(distinct_names(rest));
        lemma_table(rest);
        assert forall|name: Seq<char>| #[trigger]
            table_of(entries).contains_key(name) implies exists|i: int|
            0 <= i < entries.len() && (#[trigger] entries[i]).0@ == name by {
            if name == entries.last().0@ {
                assert(entries[entries.len() - 1].0@ == name);
            } else {
                assert(table_of(rest).contains_key(name));
                let i = choose|i: int| 0 <= i < rest.len() && (#[trigger] rest[i]).0@ == name;
                assert(entries[i].0@ == name);
            }
        }
        assert forall|i: int| 0 <= i < entries.len() implies table_of(entries).contains_key(
            (#[trigger] entries[i]).0@,
        ) && table_of(entries)[entries[i].0@] == entries[i].1 by {
            if i < rest.len() {
                assert(rest[i] == entries[i]);
            }
        }
        if table_of(rest).contains_key(entries.last().0@) {
            let i = choose|i: int|
                0 <= i < rest.len() && (#[trigger] rest[i]).0@ == entries.last().0@;
            assert(entries[i].0@ == entries[entries.len() - 1].0@);
            assert(false);
        }
    }
}

impl Default for LimitSet {
    /// An empty set.
    fn default() -> (r: Self)
        ensures
            r.wf(),
            r@ == Map::<Seq<char>, Limit>::empty(),
    {
        LimitSet { entries: Vec::new() }
    }
}

impl LimitSet {
    /// What every set keeps: no name occurs twice.
    pub closed spec fn wf(&self) -> bool {
        distinct_names(self.entries@)
    }

    /// Where a value sits, by parameter name: unknown where there is no limit, or no number.
    pub open spec fn state_of(&self, name: Seq<char>, value: crate::value::ValueView) -> LimitState {
        match number_of(value) {
            Some(number) => if self@.contains_key(name) {
                self@[name].state_of(number)
            } else {
                LimitState::Unknown
            },
            None => LimitState::Unknown,
        }
    }

    /// An empty set. Every parameter is [`LimitState::Unknown`] against it.
    pub fn new() -> (r: Self)
        ensures
            r.wf(),
            r@ == Map::<Seq<char>, Limit>::empty(),
    {
        LimitSet { entries: Vec::new() }
    }

    fn find(&self, name: &str) -> (r: Option<usize>)
        requires
            self.wf(),
        ensures
            r is Some <==> self@.contains_key(name@),
            r matches Some(index) ==> index < self.entries@.len() && self.entries@[index as int].0@
                == name@ && self@[name@] == self.entries@[index as int].1,
    {
        proof {
            lemma_table(self.entries@);
        }
        let mut index: usize = 0;
        while index < self.entries.len()
            invariant
                index <= self.entries@.len(),
                forall|i: int| 0 <= i < index ==> (#[trigger] self.entries@[i]).0@ != name@,
                forall|i: int|
                    0 <= i < self.entries@.len() ==> self@.contains_key(
                        (#[trigger] self.entries@[i]).0@,
                    ) && self@[self.entries@[i].0@] == self.entries@[i].1,
            decreases self.entries@.len() - index,
        {
            if same_text(self.entries[index].0.as_str(), name) {
                return Some(index);
            }
            index = index + 1;
        }
        None
    }

    /// Adds or replaces the limit for a parameter.
    pub fn insert(&mut self, name: String, limit: Limit)
        requires
            old(self).wf(),
        ensures
            final(self).wf(),
            final(self)@ == old(self)@.insert(name@, limit),
    {
        match self.find(name.as_str()) {
            Some(index) => {
                proof {
                    lemma_table(self.entries@);
                }
                let ghost before = self.entries@;
                self.entries[index].1 = limit;
                proof {
                    let after = self.entries@;
                    assert forall|i: int, j: int| 0 <= i < j < after.len() implies (
                    #[trigger] after[i]).0@ != (#[trigger] after[j]).0@ by {
                        assert(before[i].0@ != before[j].0@);
                    }
                    lemma_table(after);
                    assert forall|n: Seq<char>| #[trigger]
                        table_of(after).contains_key(n) == table_of(before).insert(
                            name@,
                            limit,
                        ).contains_key(n) by {
                        if table_of(after).contains_key(n) {
                            let i = choose|i: int|
                                0 <= i < after.len() && (#[trigger] after[i]).0@ == n;
                            assert(before[i].0@ == n);
                        }
                        if table_of(before).contains_key(n) {
                            let i = choose|i: int|
                                0 <= i < before.len() && (#[trigger] before[i]).0@ == n;
                            assert(after[i].0@ == n);
                        }
                        if n == name@ {
                            assert(after[index as int].0@ == n);
                        }
                    }
                    assert forall|n: Seq<char>| #[trigger]
                        table_of(after).contains_key(n) implies table_of(after)[n]
                        == table_of(before).insert(name@, limit)[n] by {
                        let i = choose|i: int| 0 <= i < after.len() && (#[trigger] after[i]).0@ == n;
                        assert(before[i].0@ == n);
                        if i != index {
                            assert(before[i] == after[i]);
                            if n == name@ {
                                assert(before[i].0@ == before[index as int].0@);
                                assert(i < index ==> before[i].0@ != before[index as int].0@);
                                assert(index < i ==> before[index as int].0@ != before[i].0@);
                            }
                        }
                    }
                    assert(table_of(after) =~= table_of(before).insert(name@, limit));
                }
            },
            None => {
                let ghost before = self.entries@;
                let ghost label = name@;
                proof {
                    lemma_table(before);
                }
                self.entries.push((name, limit));
                proof {
                    assert(self.entries@.drop_last() =~= before);
                    assert forall|i: int, j: int| 0 <= i < j < self.entries@.len() implies (
                    #[trigger] self.entries@[i]).0@ != (#[trigger] self.entries@[j]).0@ by {
                        if j == before.len() {
                            assert(table_of(before).contains_key(before[i].0@));
                        } else {
                            assert(before[i].0@ != before[j].0@);
                        }
                    }
                }
            },
        }
    }

    /// The limit for a parameter, if one is defined.
    pub fn get(&self, name: &str) -> (r: Option<&Limit>)
        requires
            self.wf(),
        ensures
            r == (if self@.contains_key(name@) {
                Some(&self@[name@])
            } else {
                None
            }),
    {
        match self.find(name) {
            Some(index) => Some(&self.entries[index].1),
            None => None,
        }
    }

    /// Where a value sits, by parameter name.
    ///
    /// A non-numeric value is [`LimitState::Unknown`] and not an error: an enumeration has no
    /// order.
    pub fn evaluate(&self, name: &str, value: &Value) -> (r: LimitState)
        requires
            self.wf(),
        ensures
            r == self.state_of(name@, value@),
    {
        match self.get(name) {
            None => LimitState::Unknown,
            Some(limit) => match value.as_f64() {
                None => LimitState::Unknown,
                Some(number) => limit.evaluate(number),
            },
        }
    }

    /// Every parameter that has limits, each once.
    pub fn iter(&self) -> (r: Vec<(&str, &Limit)>)
        requires
            self.wf(),
        ensures
            r@.len() == self@.len(),
            forall|i: int|
                0 <= i < r@.len() ==> self@.contains_key((#[trigger] r@[i]).0@) && *r@[i].1
                    == self@[r@[i].0@],
            forall|i: int, j: int|
                0 <= i < j < r@.len() ==> (#[trigger] r@[i]).0@ != (#[trigger] r@[j]).0@,
    {
        proof {
            lemma_table(self.entries@);
        }
        let mut all: Vec<(&str, &Limit)> = Vec::with_capacity(self.entries.len());
        let mut index: usize = 0;
        while index < self.entries.len()
            invariant
                self.wf(),
                index <= self.entries@.len(),
                all@.len() == index,
                forall|i: int|
                    0 <= i < self.entries@.len() ==> self@.contains_key(
                        (#[trigger] self.entries@[i]).0@,
                    ) && self@[self.entries@[i].0@] == self.entries@[i].1,
                forall|i: int|
                    0 <= i < index ==> (#[trigger] all@[i]).0@ == self.entries@[i].0@
                        && *all@[i].1 == self.entries@[i].1,
            decreases self.entries@.len() - index,
        {
            let entry: &(String, Limit) = &self.entries[index];
            all.push((entry.0.as_str(), &entry.1));
            index = index + 1;
        }
        proof {
            assert forall|i: int, j: int| 0 <= i < j < all@.len() implies (#[trigger] all@[i]).0@
                != (#[trigger] all@[j]).0@ by {
                assert(self.entries@[i].0@ != self.entries@[j].0@);
            }
            assert forall|i: int| 0 <= i < all@.len() implies self@.contains_key(
                (#[trigger] all@[i]).0@,
            ) && *all@[i].1 == self@[all@[i].0@] by {
                assert(self@.contains_key(self.entries@[i].0@));
            }
        }
        all
    }

    /// How many parameters have limits.
    pub fn len(&self) -> (r: usize)
        requires
            self.wf(),
        ensures
            r == self@.len(),
    {
        proof {
            lemma_table(self.entries@);
        }
        self.entries.len()
    }

    /// Whether no limits are defined.
    pub fn is_empty(&self) -> (r: bool)
        requires
            self.wf(),
        ensures
            r == (self@.len() == 0),
    {
        proof {
            lemma_table(self.entries@);
        }
        self.entries.len() == 0
    }
}

/// Of two states the more serious is always the same one, and only a state is as serious as
/// itself: the worst of a group is well defined.
pub proof fn states_are_ordered(a: LimitState, b: LimitState)
    ensures
        a.rank() <= b.rank() || b.rank() <= a.rank(),
        a.rank() == b.rank() ==> a == b,
        LimitState::Unknown.rank() < LimitState::Nominal.rank() < LimitState::Warning.rank()
            < LimitState::Alarm.rank(),
{
}

/// The more serious state wins: a number outside a set alarm range is an alarm, wherever the
/// warning range lies.
pub proof fn alarms_come_first(limit: Limit, value: Float64)
    requires
        !value.nan(),
        limit.alarm.bounded(),
        !limit.alarm.holds(value),
    ensures
        limit.state_of(value) == LimitState::Alarm,
{
}

/// Where the warning range lies inside the alarm range, the states nest: whatever is nominal
/// is inside both, and whatever is an alarm is outside both.
pub proof fn the_bands_of_a_limit_nest(limit: Limit, value: Float64)
    requires
        limit.warning.bounded(),
        limit.alarm.bounded(),
        forall|v: Float64| #[trigger] limit.warning.holds(v) ==> limit.alarm.holds(v),
    ensures
        limit.state_of(value) == LimitState::Nominal ==> limit.warning.holds(value)
            && limit.alarm.holds(value),
        limit.state_of(value) == LimitState::Alarm ==> !limit.warning.holds(value)
            && !limit.alarm.holds(value),
        limit.state_of(value) == LimitState::Warning ==> !limit.warning.holds(value)
            && limit.alarm.holds(value),
{
}

/// What is not a number is never nominal, and is inside no range.
pub proof fn no_number_is_unknown(limit: Limit, range: Range, value: Float64)
    requires
        value.nan(),
    ensures
        limit.state_of(value) == LimitState::Unknown,
        !range.holds(value),
{
}

} // verus!
