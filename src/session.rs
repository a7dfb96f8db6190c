use vstd::prelude::*;

verus! {

/// The account settings a fetch is made with.
#[derive(Clone, Debug)]
pub struct AccountData {
    pub account: String,
    pub cookie: String,
    pub league: String,
    pub tab_idx: usize,
}

impl View for AccountData {
    type V = (Seq<char>, Seq<char>, Seq<char>, usize);

    open spec fn view(&self) -> (Seq<char>, Seq<char>, Seq<char>, usize) {
        (self.account@, self.cookie@, self.league@, self.tab_idx)
    }
}

impl PartialEq for AccountData {
    fn eq(&self, other: &AccountData) -> (r: bool) {
        self.account == other.account && self.cookie == other.cookie && self.league == other.league
            && self.tab_idx == other.tab_idx
    }
}

impl vstd::std_specs::cmp::PartialEqSpecImpl for AccountData {
    open spec fn obeys_eq_spec() -> bool {
        true
    }

    open spec fn eq_spec(&self, other: &AccountData) -> bool {
        self@ == other@
    }
}

impl Eq for AccountData {

}

impl Default for AccountData {
    fn default() -> (r: AccountData)
        ensures
            r@ == (Seq::<char>::empty(), Seq::<char>::empty(), Seq::<char>::empty(), 0usize),
    {
        AccountData { account: String::new(), cookie: String::new(), league: String::new(), tab_idx: 0 }
    }
}

/// Replaces the session's account settings with `new_account`; says whether
/// they changed.
pub fn set_account(current: &mut AccountData, new_account: AccountData) -> (changed: bool)
    ensures
        final(current)@ == new_account@,
        changed == (old(current)@ != new_account@),
{
    if (*current).eq(&new_account) {
        return false;
    }
    *current = new_account;
    true
}

} // verus!
