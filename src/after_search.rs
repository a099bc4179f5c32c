use vstd::prelude::*;
use vstd::string::*;

verus! {

/// What the user may do once a search has finished.
#[derive(Debug, Clone, Copy, PartialEq, Eq, Structural)]
pub enum AfterSearchOption {
    ShowAll,
    Filter,
}

pub open spec fn option_name(o: AfterSearchOption) -> Seq<char> {
    match o {
        AfterSearchOption::ShowAll => seq!['S', 'h', 'o', 'w', ' ', 'A', 'l', 'l'],
        AfterSearchOption::Filter => seq!['F', 'i', 'l', 't', 'e', 'r'],
    }
}

fn same_text(a: &str, b: &str) -> (r: bool)
    ensures
        r == (a@ == b@),
{
    let n = a.unicode_len();
    if n != b.unicode_len() {
        return false;
    }
    let mut i: usize = 0;
    while i < n
        invariant
            n == a@.len(),
            n == b@.len(),
            i <= n,
            forall|j: int| 0 <= j < i ==> a@[j] == b@[j],
        decreases n - i,
    {
        if a.get_char(i) != b.get_char(i) {
            return false;
        }
        i = i + 1;
    }
    assert(a@ =~= b@);
    true
}

impl AfterSearchOption {
    /// The name under which the option is offered and parsed.
    pub fn name(&self) -> (r: &'static str)
        ensures
            r@ == option_name(*self),
    {
        match self {
            AfterSearchOption::ShowAll => {
                proof {
                    reveal_strlit("Show All");
                }
                "Show All"
            },
            AfterSearchOption::Filter => {
                proof {
                    reveal_strlit("Filter");
                }
                "Filter"
            },
        }
    }

    /// The names of all options, in the order they are offered.
    pub fn variants() -> (r: Vec<&'static str>)
        ensures
            r@.len() == 2,
            r@[0]@ == option_name(AfterSearchOption::ShowAll),
            r@[1]@ == option_name(AfterSearchOption::Filter),
    {
        let mut v: Vec<&'static str> = Vec::new();
        v.push(AfterSearchOption::ShowAll.name());
        v.push(AfterSearchOption::Filter.name());
        v
    }

    /// The option whose name is exactly `s`, or `None`.
    pub fn from_name(s: &str) -> (r: Option<AfterSearchOption>)
        ensures
            r matches Some(o) ==> option_name(o) == s@,
            r is None ==> forall|o: AfterSearchOption| option_name(o) != s@,
    {
        if same_text(s, AfterSearchOption::ShowAll.name()) {
            Some(AfterSearchOption::ShowAll)
        } else if same_text(s, AfterSearchOption::Filter.name()) {
            Some(AfterSearchOption::Filter)
        } else {
            proof {
                assert forall|o: AfterSearchOption| option_name(o) != s@ by {
                    match o {
                        AfterSearchOption::ShowAll => {},
                        AfterSearchOption::Filter => {},
                    }
                }
            }
            None
        }
    }
}

} // verus!
