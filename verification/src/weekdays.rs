//! Sets of weekdays.

use crate::grammar;
use crate::grammar::day_bit;
use vstd::prelude::*;
use vstd::std_specs::convert::FromSpecImpl;

verus! {

/// A set of weekdays: bit 0 is Monday, bit 6 is Sunday.
#[derive(Clone, Copy, Debug, PartialEq, Eq, Structural)]
pub struct Weekdays {
    pub bits: u8,
}

/// The bits of the weekdays before `day`.
pub open spec fn low_mask(day: int) -> u8 {
    if day <= 0 {
        0
    } else if day == 1 {
        1
    } else if day == 2 {
        3
    } else if day == 3 {
        7
    } else if day == 4 {
        15
    } else if day == 5 {
        31
    } else if day == 6 {
        63
    } else {
        127
    }
}

impl Weekdays {
    /// Whether weekday `day` (Monday is 0) is in the set.
    pub open spec fn has(self, day: int) -> bool {
        self.bits & day_bit(day) != 0
    }

    /// The weekdays of the set that come before `day`, in ascending order.
    pub open spec fn days_below(self, day: int) -> Seq<u32>
        decreases day,
    {
        if day <= 0 {
            Seq::empty()
        } else if self.has(day - 1) {
            self.days_below(day - 1).push((day - 1) as u32)
        } else {
            self.days_below(day - 1)
        }
    }

    /// The weekdays of the set, in ascending order.
    pub open spec fn day_list(self) -> Seq<u32> {
        self.days_below(7)
    }

    /// The set holds no weekday.
    pub open spec fn empty(self) -> bool {
        self.bits & 127 == 0
    }

    /// The empty set.
    pub fn none() -> (r: Weekdays)
        ensures
            r.bits == 0,
    {
        Weekdays { bits: 0 }
    }

    /// The set's bits.
    pub fn bits(&self) -> (r: u8)
        ensures
            r == self.bits,
    {
        self.bits
    }

    /// Whether the set holds no weekday.
    pub fn is_none(&self) -> (r: bool)
        ensures
            r == self.empty(),
    {
        self.bits & 127 == 0
    }

    /// The set of the one weekday that `weekday` holds.
    pub fn from_single_weekday(weekday: grammar::Weekdays) -> (r: Weekdays)
        requires
            exists|day: int| 0 <= day < 7 && weekday.bits == day_bit(day),
        ensures
            r.bits == weekday.bits,
    {
        if weekday.bits == 1 {
            Weekdays { bits: 1 }
        } else if weekday.bits == 2 {
            Weekdays { bits: 2 }
        } else if weekday.bits == 4 {
            Weekdays { bits: 4 }
        } else if weekday.bits == 8 {
            Weekdays { bits: 8 }
        } else if weekday.bits == 16 {
            Weekdays { bits: 16 }
        } else if weekday.bits == 32 {
            Weekdays { bits: 32 }
        } else {
            Weekdays { bits: 64 }
        }
    }

    /// The weekdays of the set as numbers, Monday being 0, in ascending order.
    pub fn to_list(&self) -> (r: Vec<u32>)
        ensures
            r@ == self.day_list(),
    {
        let mut list: Vec<u32> = Vec::new();
        let mut day: u32 = 0;
        while day < 7
            invariant
                day <= 7,
                list@ == self.days_below(day as int),
            decreases 7 - day,
        {
            let bit: u8 = 1u8 << day;
            assert(bit == day_bit(day as int)) by (bit_vector)
                requires
                    day < 7,
                    bit == 1u8 << day,
            ;
            if self.bits & bit != 0 {
                list.push(day);
            }
            day += 1;
        }
        list
    }
}

/// The set of the weekdays that were written: the seven low bits.
pub open spec fn lowered_weekdays(weekdays: grammar::Weekdays) -> Weekdays {
    Weekdays { bits: weekdays.bits & 127 }
}

/// What one more weekday adds to the bits kept so far.
proof fn lemma_mask_step(w: u8, day: int)
    requires
        0 <= day < 7,
    ensures
        w & day_bit(day) == day_bit(day) ==> (w & low_mask(day)) | day_bit(day) == w & low_mask(
            day + 1,
        ),
        w & day_bit(day) != day_bit(day) ==> w & low_mask(day) == w & low_mask(day + 1),
{
    if day == 0 {
        assert((w & 1 == 1 ==> (w & 0) | 1 == w & 1) && (w & 1 != 1 ==> w & 0 == w & 1))
            by (bit_vector);
    } else if day == 1 {
        assert((w & 2 == 2 ==> (w & 1) | 2 == w & 3) && (w & 2 != 2 ==> w & 1 == w & 3))
            by (bit_vector);
    } else if day == 2 {
        assert((w & 4 == 4 ==> (w & 3) | 4 == w & 7) && (w & 4 != 4 ==> w & 3 == w & 7))
            by (bit_vector);
    } else if day == 3 {
        assert((w & 8 == 8 ==> (w & 7) | 8 == w & 15) && (w & 8 != 8 ==> w & 7 == w & 15))
            by (bit_vector);
    } else if day == 4 {
        assert((w & 16 == 16 ==> (w & 15) | 16 == w & 31) && (w & 16 != 16 ==> w & 15 == w & 31))
            by (bit_vector);
    } else if day == 5 {
        assert((w & 32 == 32 ==> (w & 31) | 32 == w & 63) && (w & 32 != 32 ==> w & 31 == w & 63))
            by (bit_vector);
    } else {
        assert((w & 64 == 64 ==> (w & 63) | 64 == w & 127) && (w & 64 != 64 ==> w & 63 == w
            & 127)) by (bit_vector);
    }
}

impl From<grammar::Weekdays> for Weekdays {
    /// Takes over the weekdays of a parsed set, one by one.
    fn from(weekdays: grammar::Weekdays) -> (r: Weekdays) {
        let mut result = Weekdays::none();
        let mut day: u32 = 0;
        assert(weekdays.bits & 0 == 0) by (bit_vector);
        while day < 7
            invariant
                day <= 7,
                result.bits == weekdays.bits & low_mask(day as int),
            decreases 7 - day,
        {
            let weekday = grammar::Weekdays::single(day);
            proof {
                lemma_mask_step(weekdays.bits, day as int);
            }
            if weekdays.contains(weekday) {
                let one = Weekdays::from_single_weekday(weekday);
                result = Weekdays { bits: result.bits | one.bits };
            }
            day += 1;
        }
        result
    }
}

impl FromSpecImpl<grammar::Weekdays> for Weekdays {
    open spec fn obeys_from_spec() -> bool {
        true
    }

    open spec fn from_spec(weekdays: grammar::Weekdays) -> Weekdays {
        lowered_weekdays(weekdays)
    }
}

/// The list of a set's weekdays holds exactly the weekdays of the set.
pub proof fn lemma_day_list(set: Weekdays, day: u32)
    ensures
        set.day_list().contains(day) <==> day < 7 && set.has(day as int),
{
    lemma_days_below(set, 7, day);
}

/// The weekdays listed below `limit` are those of the set below `limit`.
pub proof fn lemma_days_below(set: Weekdays, limit: int, day: u32)
    requires
        0 <= limit <= 7,
    ensures
        set.days_below(limit).contains(day) <==> day < limit && set.has(day as int),
    decreases limit,
{
    if limit > 0 {
        lemma_days_below(set, limit - 1, day);
        let rest = set.days_below(limit - 1);
        if set.has(limit - 1) {
            let all = rest.push((limit - 1) as u32);
            assert(all[all.len() - 1] == (limit - 1) as u32);
            if rest.contains(day) {
                let i = choose|i: int| 0 <= i < rest.len() && rest[i] == day;
                assert(all[i] == day);
            }
        }
    }
}

/// A set is empty exactly when its list of weekdays is.
pub proof fn lemma_empty_list(set: Weekdays)
    ensures
        set.empty() <==> set.day_list().len() == 0,
{
    let b = set.bits;
    lemma_day_list(set, 0);
    lemma_day_list(set, 1);
    lemma_day_list(set, 2);
    lemma_day_list(set, 3);
    lemma_day_list(set, 4);
    lemma_day_list(set, 5);
    lemma_day_list(set, 6);
    assert(b & 127 == 0 <==> (b & 1 == 0 && b & 2 == 0 && b & 4 == 0 && b & 8 == 0 && b & 16 == 0
        && b & 32 == 0 && b & 64 == 0)) by (bit_vector);
    if set.day_list().len() > 0 {
        let d = set.day_list()[0];
        assert(set.day_list().contains(d));
        lemma_day_list(set, d);
    }
}

} // verus!
