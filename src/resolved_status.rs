//! The outcome of a resolution, as the event sink receives it.
use vstd::prelude::*;
use vstd::string::*;

use crate::dns::result_code::ResultCode;
use crate::resolved_data::{ResolvedData, ResolvedDataView};

verus! {

/// Represents the result of a name resolution
#[derive(Debug)]
pub enum ResolvedStatus {
    /// Indicates that the FQDN is not listed in the allowlist and has been denied
    Deny(ResolvedData, ResultCode),
    /// Indicates that the FQDN is listed in the allowlist and has been resolved
    Allow(ResolvedData),
    /// Indicates that the FQDN is listed in the allowlist but the name resolution failed
    AllowButError(ResolvedData, ResultCode),
    /// Indicates that the name resolution was performed without checking the allowlist
    NoCheck(ResolvedData),
    /// Indicates that the name resolution failed without checking the allowlist
    NoCheckButError(ResolvedData, ResultCode),
}

/// A status as a value.
pub enum ResolvedStatusView {
    Deny(ResolvedDataView, ResultCode),
    Allow(ResolvedDataView),
    AllowButError(ResolvedDataView, ResultCode),
    NoCheck(ResolvedDataView),
    NoCheckButError(ResolvedDataView, ResultCode),
}

impl View for ResolvedStatus {
    type V = ResolvedStatusView;

    open spec fn view(&self) -> ResolvedStatusView {
        match self {
            ResolvedStatus::Deny(d, c) => ResolvedStatusView::Deny(d@, *c),
            ResolvedStatus::Allow(d) => ResolvedStatusView::Allow(d@),
            ResolvedStatus::AllowButError(d, c) => ResolvedStatusView::AllowButError(d@, *c),
            ResolvedStatus::NoCheck(d) => ResolvedStatusView::NoCheck(d@),
            ResolvedStatus::NoCheckButError(d, c) => ResolvedStatusView::NoCheckButError(d@, *c),
        }
    }
}

/// `<TYPE> name: description of the code`.
pub open spec fn failed_text(d: ResolvedDataView, c: ResultCode) -> Seq<char> {
    "<"@ + d.req_qtype.spec_text() + "> "@ + d.req_name + ": "@ + c.spec_text()
}

impl ResolvedStatusView {
    /// The status with the allow-list outcomes turned into their unchecked
    /// counterparts.
    pub open spec fn nocheck(self) -> ResolvedStatusView {
        match self {
            ResolvedStatusView::Allow(d) => ResolvedStatusView::NoCheck(d),
            ResolvedStatusView::AllowButError(d, c) => ResolvedStatusView::NoCheckButError(d, c),
            other => other,
        }
    }

    /// The line that reports the status.
    pub open spec fn pretty(self) -> Seq<char> {
        match self {
            ResolvedStatusView::Deny(d, c) => "[Deny] "@ + failed_text(d, c),
            ResolvedStatusView::AllowButError(d, c) => "[Allow] "@ + failed_text(d, c),
            ResolvedStatusView::Allow(d) => "[Allow] "@ + d.pretty(),
            ResolvedStatusView::NoCheck(d) => "[NoCheck] "@ + d.pretty(),
            ResolvedStatusView::NoCheckButError(d, c) => "[NoCheck] "@ + failed_text(d, c),
        }
    }
}

fn failed_line(tag: &str, d: &ResolvedData, c: &ResultCode) -> (r: String)
    ensures
        r@ == tag@ + failed_text(d@, *c),
{
    let r = String::from_str(tag).concat("<").concat(d.req_qtype.to_string().as_str()).concat(
        "> ",
    ).concat(d.req_name.as_str()).concat(": ").concat(c.to_string().as_str());
    assert(r@ =~= tag@ + failed_text(d@, *c));
    r
}

impl ResolvedStatus {
    /// The line that reports the status.
    pub fn pretty_fmt(&self) -> (r: String)
        ensures
            r@ == self@.pretty(),
    {
        match self {
            ResolvedStatus::Deny(v, code) => failed_line("[Deny] ", v, code),
            ResolvedStatus::AllowButError(v, code) => failed_line("[Allow] ", v, code),
            ResolvedStatus::Allow(v) => String::from_str("[Allow] ").concat(v.pretty_fmt().as_str()),
            ResolvedStatus::NoCheck(v) => String::from_str("[NoCheck] ").concat(
                v.pretty_fmt().as_str(),
            ),
            ResolvedStatus::NoCheckButError(v, code) => failed_line("[NoCheck] ", v, code),
        }
    }

    /// The line that reports the status.
    pub fn to_string(&self) -> (r: String)
        ensures
            r@ == self@.pretty(),
    {
        self.pretty_fmt()
    }

    /// The status with `Allow` as `NoCheck` and `AllowButError` as
    /// `NoCheckButError`: for requests that the lists do not govern.
    pub fn into_nocheck(self) -> (r: ResolvedStatus)
        ensures
            r@ == self@.nocheck(),
    {
        match self {
            ResolvedStatus::Allow(v) => ResolvedStatus::NoCheck(v),
            ResolvedStatus::AllowButError(v, code) => ResolvedStatus::NoCheckButError(v, code),
            v => v,
        }
    }
}

} // verus!
