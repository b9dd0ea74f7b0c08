//! Two check-lists combined: a name on the deny list is denied even where the
//! allow list has it.
use vstd::prelude::*;

use crate::allowlist::{lemma_glob_matches_itself, AllowList, AllowListView};

verus! {

/// The verdict of the combined lists.
#[derive(Debug, PartialEq, Eq, Structural, Clone, Copy)]
pub enum CheckStatus {
    NotFound,
    Allow,
    Deny,
}

/// The verdict on `name`: `Deny` where the deny list matches it, else
/// `Allow` where the allow list does, else `NotFound`.
pub open spec fn verdict(allow: AllowListView, deny: AllowListView, name: Seq<char>) -> CheckStatus {
    if deny.matches(name) {
        CheckStatus::Deny
    } else if allow.matches(name) {
        CheckStatus::Allow
    } else {
        CheckStatus::NotFound
    }
}

/// A name that the deny list matches is denied, whatever the allow list
/// holds.
pub proof fn law_deny_wins(allow: AllowListView, deny: AllowListView, x: Seq<char>)
    requires
        deny.entries().contains(x),
    ensures
        verdict(allow, deny, x) == CheckStatus::Deny,
{
    lemma_glob_matches_itself(x);
    if !deny.names.contains(x) {
        assert(deny.patterns.contains(x));
    }
}

/// An allow list and a deny list.
#[derive(Debug, Default)]
pub struct CompositeCheckList {
    pub allowlist: AllowList,
    pub denylist: AllowList,
}

impl CompositeCheckList {
    /// Both lists are well formed.
    pub open spec fn wf(&self) -> bool {
        self.allowlist.wf() && self.denylist.wf()
    }

    pub fn new(allowlist: AllowList, denylist: AllowList) -> (r: Self)
        ensures
            r.allowlist@ == allowlist@,
            r.denylist@ == denylist@,
            r.allowlist.spec_path() == allowlist.spec_path(),
            r.denylist.spec_path() == denylist.spec_path(),
            r.allowlist.spec_count() == allowlist.spec_count(),
            r.denylist.spec_count() == denylist.spec_count(),
            r.allowlist.wf() == allowlist.wf(),
            r.denylist.wf() == denylist.wf(),
    {
        CompositeCheckList { allowlist, denylist }
    }

    /// Classifies `name`; the deny list wins.
    pub fn check(&self, name: &str) -> (r: CheckStatus)
        requires
            self.wf(),
        ensures
            r == verdict(self.allowlist@, self.denylist@, name@),
    {
        if self.denylist.check(name) {
            CheckStatus::Deny
        } else if self.allowlist.check(name) {
            CheckStatus::Allow
        } else {
            CheckStatus::NotFound
        }
    }
}

} // verus!
