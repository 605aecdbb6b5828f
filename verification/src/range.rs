//! The stretch of time that the cards show.

use vstd::prelude::*;
use crate::text::text_is;

verus! {

#[derive(Clone, Copy, PartialEq, Eq, Structural, Debug)]
pub enum Range {
    D1,
    W1,
    M1,
    M6,
    Y1,
    Y5,
    Max,
}

impl Range {
    /// How a range is labelled.
    pub open spec fn labelled(self) -> Seq<char> {
        match self {
            Range::D1 => "1D"@,
            Range::W1 => "1W"@,
            Range::M1 => "1M"@,
            Range::M6 => "6M"@,
            Range::Y1 => "1Y"@,
            Range::Y5 => "5Y"@,
            Range::Max => "Max"@,
        }
    }

    /// How many days a range reaches back; 0 for all.
    pub open spec fn reach(self) -> u32 {
        match self {
            Range::D1 => 1,
            Range::W1 => 7,
            Range::M1 => 30,
            Range::M6 => 183,
            Range::Y1 => 365,
            Range::Y5 => 1826,
            Range::Max => 0,
        }
    }

    /// The range that a stored label stands for.
    pub open spec fn restored(label: Seq<char>) -> Range {
        if label == "1D"@ {
            Range::D1
        } else if label == "1W"@ {
            Range::W1
        } else if label == "1M"@ {
            Range::M1
        } else if label == "6M"@ {
            Range::M6
        } else if label == "1Y"@ {
            Range::Y1
        } else if label == "5Y"@ {
            Range::Y5
        } else {
            Range::Y1
        }
    }

    /// The label that is shown for a range and stored for it.
    pub fn label(&self) -> (r: &'static str)
        ensures
            r@ == self.labelled(),
    {
        match self {
            Range::D1 => "1D",
            Range::W1 => "1W",
            Range::M1 => "1M",
            Range::M6 => "6M",
            Range::Y1 => "1Y",
            Range::Y5 => "5Y",
            Range::Max => "Max",
        }
    }

    /// How many days the range reaches back; 0 for all.
    pub fn days(&self) -> (r: u32)
        ensures
            r == self.reach(),
    {
        match self {
            Range::D1 => 1,
            Range::W1 => 7,
            Range::M1 => 30,
            Range::M6 => 183,
            Range::Y1 => 365,
            Range::Y5 => 1826,
            Range::Max => 0,
        }
    }

    /// The range that a stored label stands for: a year where the label is none of the six
    /// that name a number of days.
    pub fn from_label(label: &str) -> (r: Range)
        ensures
            r == Range::restored(label@),
    {
        if text_is(label, "1D") {
            Range::D1
        } else if text_is(label, "1W") {
            Range::W1
        } else if text_is(label, "1M") {
            Range::M1
        } else if text_is(label, "6M") {
            Range::M6
        } else if text_is(label, "1Y") {
            Range::Y1
        } else if text_is(label, "5Y") {
            Range::Y5
        } else {
            Range::Y1
        }
    }

    /// A stored range is the one that comes back, except that `Max` is not kept.
    pub proof fn label_comes_back(r: Range)
        requires
            r != Range::Max,
        ensures
            Range::restored(r.labelled()) == r,
    {
        Range::reveal_labels();
        assert("1D"@[0] == '1' && "1D"@[1] == 'D');
        assert("1W"@[1] == 'W');
        assert("1M"@[1] == 'M');
        assert("6M"@[0] == '6');
        assert("1Y"@[1] == 'Y');
        assert("5Y"@[0] == '5');
    }

    /// No two ranges have one label.
    pub proof fn labels_differ(a: Range, b: Range)
        requires
            a.labelled() == b.labelled(),
        ensures
            a == b,
    {
        Range::reveal_labels();
        assert(a.labelled().len() == b.labelled().len());
        assert(a.labelled()[0] == b.labelled()[0]);
        assert(a.labelled()[1] == b.labelled()[1]);
    }

    proof fn reveal_labels()
        ensures
            "1D"@ == seq!['1', 'D'],
            "1W"@ == seq!['1', 'W'],
            "1M"@ == seq!['1', 'M'],
            "6M"@ == seq!['6', 'M'],
            "1Y"@ == seq!['1', 'Y'],
            "5Y"@ == seq!['5', 'Y'],
            "Max"@ == seq!['M', 'a', 'x'],
    {
        reveal_strlit("1D");
        reveal_strlit("1W");
        reveal_strlit("1M");
        reveal_strlit("6M");
        reveal_strlit("1Y");
        reveal_strlit("5Y");
        reveal_strlit("Max");
        assert("1D"@ =~= seq!['1', 'D']);
        assert("1W"@ =~= seq!['1', 'W']);
        assert("1M"@ =~= seq!['1', 'M']);
        assert("6M"@ =~= seq!['6', 'M']);
        assert("1Y"@ =~= seq!['1', 'Y']);
        assert("5Y"@ =~= seq!['5', 'Y']);
        assert("Max"@ =~= seq!['M', 'a', 'x']);
    }
}

/// Ranges reach back as many days as their labels say, the longest to the first.
pub proof fn ranges_reach_back(r: Range)
    ensures
        r.labelled() == "1D"@ ==> r.reach() == 1,
        r.labelled() == "1W"@ ==> r.reach() == 7,
        r.labelled() == "1M"@ ==> r.reach() == 30,
        r.labelled() == "6M"@ ==> r.reach() == 183,
        r.labelled() == "1Y"@ ==> r.reach() == 365,
        r.labelled() == "5Y"@ ==> r.reach() == 1826,
        r.labelled() == "Max"@ ==> r.reach() == 0,
        Range::restored(r.labelled()) == r || r == Range::Max,
{
    reveal_strlit("1D");
    reveal_strlit("1W");
    reveal_strlit("1M");
    reveal_strlit("6M");
    reveal_strlit("1Y");
    reveal_strlit("5Y");
    reveal_strlit("Max");
    assert("1D"@[0] == '1' && "1D"@[1] == 'D' && "1W"@[0] == '1' && "1W"@[1] == 'W' && "1M"@[0] == '1' && "1M"@[1] == 'M'
        && "6M"@[0] == '6' && "6M"@[1] == 'M' && "1Y"@[0] == '1' && "1Y"@[1] == 'Y' && "5Y"@[0] == '5' && "5Y"@[1]
        == 'Y' && "Max"@[0] == 'M');
    assert("1D"@.len() == 2 && "Max"@.len() == 3);
}

} // verus!
