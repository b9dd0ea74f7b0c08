use local_fqdn_filter::dns::{QueryType, ResultCode};
use local_fqdn_filter::event::{LFFResolveEvent, LogDecision};
use local_fqdn_filter::{get_version, ResolvedData, ResolvedStatus};

fn deny(name: &str) -> ResolvedStatus {
    ResolvedStatus::Deny(ResolvedData::new(QueryType::A, name.to_string()), ResultCode::NXDomain)
}

#[test]
fn reports_are_limited_per_request() {
    let mut e = LFFResolveEvent::new(3, false, false);
    assert_eq!(LogDecision::Emit, e.resolved(&deny("a.test")));
    assert_eq!(LogDecision::Emit, e.resolved(&deny("a.test")));
    assert_eq!(LogDecision::Emit, e.resolved(&deny("a.test")));
    assert_eq!(LogDecision::Warn, e.resolved(&deny("a.test")));
    assert_eq!(LogDecision::Drop, e.resolved(&deny("a.test")));
    assert_eq!(LogDecision::Emit, e.resolved(&deny("b.test")));
}

#[test]
fn allow_and_nocheck_may_be_ignored() {
    let mut e = LFFResolveEvent::new(1, false, true);
    let allow = ResolvedStatus::Allow(ResolvedData::new(QueryType::A, "a.test".to_string()));
    assert_eq!(LogDecision::Ignore, e.resolved(&allow));
    let nocheck = ResolvedStatus::NoCheck(ResolvedData::new(QueryType::A, "a.test".to_string()));
    assert_eq!(LogDecision::Emit, e.resolved(&nocheck));
    assert_eq!(LogDecision::Warn, e.resolved(&nocheck));
}

#[test]
fn nocheck_status_from_allow() {
    let s = ResolvedStatus::AllowButError(ResolvedData::new(QueryType::SRV, "s.test".to_string()), ResultCode::ServFail);
    let n = s.into_nocheck();
    assert!(matches!(n, ResolvedStatus::NoCheckButError(_, ResultCode::ServFail)));
    assert_eq!("[NoCheck] <SRV> s.test: Server Failure", n.pretty_fmt());
}

#[test]
fn version_text() {
    assert_eq!("0.1.0", get_version());
}
