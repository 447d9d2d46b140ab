use vstd::prelude::*;

use crate::rules::{Rule, RuleModel};

verus! {

/// A fragment as a mathematical value: its name and its rule.
pub struct FragmentModel {
    pub name: Seq<char>,
    pub rule: RuleModel,
}

/// A named rule that other rules can refer to by its index.
#[derive(Debug)]
pub struct Fragment {
    name: String,
    rule: Rule,
}

impl View for Fragment {
    type V = FragmentModel;

    closed spec fn view(&self) -> FragmentModel {
        FragmentModel { name: self.name@, rule: self.rule@ }
    }
}

/// The models of a sequence of fragments.
pub open spec fn fragment_views(s: Seq<Fragment>) -> Seq<FragmentModel> {
    s.map_values(|f: Fragment| f@)
}

impl Fragment {
    pub fn new(name: &str, rule: Rule) -> (r: Self)
        ensures
            r@ == (FragmentModel { name: name@, rule: rule@ }),
    {
        Fragment { name: name.to_owned(), rule }
    }

    pub fn get_name(&self) -> (r: &str)
        ensures
            r@ == self@.name,
    {
        self.name.as_str()
    }

    pub fn get_rule(&self) -> (r: &Rule)
        ensures
            r@ == self@.rule,
    {
        &self.rule
    }
}

} // verus!
