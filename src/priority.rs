use crate::text::same_text;
use std::cmp::Ordering;
use vstd::prelude::*;

verus! {

/// How urgent a task is. Ordered by rank: `Low < Medium < High`.
#[derive(Clone, Copy, Debug)]
pub enum Priority {
    Low,
    Medium,
    High,
}

/// The rank that orders priorities.
pub open spec fn rank(p: Priority) -> nat {
    match p {
        Priority::Low => 0,
        Priority::Medium => 1,
        Priority::High => 2,
    }
}

/// Three-way comparison of two ranks.
pub open spec fn compare_ranks(a: nat, b: nat) -> Ordering {
    if a < b {
        Ordering::Less
    } else if a == b {
        Ordering::Equal
    } else {
        Ordering::Greater
    }
}

/// The name a priority is shown and stored under.
pub open spec fn priority_name(p: Priority) -> Seq<char> {
    match p {
        Priority::Low => seq!['L', 'o', 'w'],
        Priority::Medium => seq!['M', 'e', 'd', 'i', 'u', 'm'],
        Priority::High => seq!['H', 'i', 'g', 'h'],
    }
}

/// The priority a stored name stands for; any unknown name means `Low`.
pub open spec fn priority_of_name(s: Seq<char>) -> Priority {
    if s == priority_name(Priority::Medium) {
        Priority::Medium
    } else if s == priority_name(Priority::High) {
        Priority::High
    } else {
        Priority::Low
    }
}

/// The priority a menu token selects (`1`, `2`, `3`), if it selects one.
pub open spec fn priority_of_choice(s: Seq<char>) -> Option<Priority> {
    if s == seq!['1'] {
        Some(Priority::Low)
    } else if s == seq!['2'] {
        Some(Priority::Medium)
    } else if s == seq!['3'] {
        Some(Priority::High)
    } else {
        None
    }
}

/// A stored name reads back as the priority it was written from.
pub proof fn lemma_name_round_trip(p: Priority)
    ensures
        priority_of_name(priority_name(p)) == p,
{
    assert(priority_name(Priority::Low) != priority_name(Priority::Medium));
    assert(priority_name(Priority::Low) != priority_name(Priority::High));
    assert(priority_name(Priority::High) != priority_name(Priority::Medium));
}

impl Priority {
    /// The rank of this priority: 0, 1 or 2.
    pub fn rank(&self) -> (r: u8)
        ensures
            r as nat == rank(*self),
    {
        match self {
            Priority::Low => 0,
            Priority::Medium => 1,
            Priority::High => 2,
        }
    }

    /// The name this priority is shown and stored under.
    pub fn get_priority_str(&self) -> (r: &'static str)
        ensures
            r@ == priority_name(*self),
    {
        proof {
            reveal_strlit("Low");
            reveal_strlit("Medium");
            reveal_strlit("High");
        }
        assert("Low"@ =~= priority_name(Priority::Low));
        assert("Medium"@ =~= priority_name(Priority::Medium));
        assert("High"@ =~= priority_name(Priority::High));
        match self {
            Priority::Low => "Low",
            Priority::Medium => "Medium",
            Priority::High => "High",
        }
    }

    /// Compares two priorities by rank.
    pub fn cmp(&self, other: &Priority) -> (r: Ordering)
        ensures
            r == compare_ranks(rank(*self), rank(*other)),
    {
        let a = self.rank();
        let b = other.rank();
        if a < b {
            Ordering::Less
        } else if a == b {
            Ordering::Equal
        } else {
            Ordering::Greater
        }
    }

    /// Reads a stored priority name; an unknown name gives `Low`.
    pub fn from_name(s: &str) -> (r: Priority)
        ensures
            r == priority_of_name(s@),
    {
        proof {
            reveal_strlit("Medium");
            reveal_strlit("High");
        }
        assert("Medium"@ =~= priority_name(Priority::Medium));
        assert("High"@ =~= priority_name(Priority::High));
        if same_text(s, "Medium") {
            Priority::Medium
        } else if same_text(s, "High") {
            Priority::High
        } else {
            Priority::Low
        }
    }

    /// Reads a menu token: `1` is `Low`, `2` is `Medium`, `3` is `High`.
    pub fn from_choice(s: &str) -> (r: Option<Priority>)
        ensures
            r == priority_of_choice(s@),
    {
        proof {
            reveal_strlit("1");
            reveal_strlit("2");
            reveal_strlit("3");
        }
        assert("1"@ =~= seq!['1']);
        assert("2"@ =~= seq!['2']);
        assert("3"@ =~= seq!['3']);
        if same_text(s, "1") {
            Some(Priority::Low)
        } else if same_text(s, "2") {
            Some(Priority::Medium)
        } else if same_text(s, "3") {
            Some(Priority::High)
        } else {
            None
        }
    }
}

impl PartialEq for Priority {
    fn eq(&self, other: &Priority) -> (r: bool) {
        self.rank() == other.rank()
    }
}

impl vstd::std_specs::cmp::PartialEqSpecImpl for Priority {
    open spec fn obeys_eq_spec() -> bool {
        true
    }

    open spec fn eq_spec(&self, other: &Priority) -> bool {
        rank(*self) == rank(*other)
    }
}

impl Eq for Priority {
}

impl PartialOrd for Priority {
    fn partial_cmp(&self, other: &Priority) -> (r: Option<Ordering>) {
        Some(self.cmp(other))
    }
}

impl vstd::std_specs::cmp::PartialOrdSpecImpl for Priority {
    open spec fn obeys_partial_cmp_spec() -> bool {
        true
    }

    open spec fn partial_cmp_spec(&self, other: &Priority) -> Option<Ordering> {
        Some(compare_ranks(rank(*self), rank(*other)))
    }
}

} // verus!
