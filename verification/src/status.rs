//! Presentation rules of the status report that need no floating point.
use vstd::prelude::*;
use crate::text::{decimal, push_decimal, str_eq};

verus! {

/// `s` seconds as `{h}小时 {m}分 {s}秒` (hours, minutes, seconds), preceded by `{d}天 `
/// (days) when there is at least one whole day.
pub open spec fn duration_text(s: nat) -> Seq<char> {
    let days = s / 86400;
    let hms = decimal((s % 86400) / 3600) + "小时 "@ + decimal((s % 3600) / 60) + "分 "@
        + decimal(s % 60) + "秒"@;
    if days > 0 {
        decimal(days) + "天 "@ + hms
    } else {
        hms
    }
}

/// The days, hours, minutes and seconds of a duration add back up to it, and each part
/// below days is within its range.
pub proof fn lemma_duration_parts(s: nat)
    ensures
        (s / 86400) * 86400 + ((s % 86400) / 3600) * 3600 + ((s % 3600) / 60) * 60 + s % 60 == s,
        (s % 86400) / 3600 < 24,
        (s % 3600) / 60 < 60,
        s % 60 < 60,
{
    assert((s % 86400) % 3600 == s % 3600) by (nonlinear_arith);
    assert((s % 3600) % 60 == s % 60) by (nonlinear_arith);
}

/// A duration in seconds written out in days, hours, minutes and seconds.
pub fn format_duration(s: u64) -> (res: String)
    ensures
        res@ == duration_text(s as nat),
{
    let days = s / 86400;
    let hours = (s % 86400) / 3600;
    let minutes = (s % 3600) / 60;
    let secs = s % 60;
    let mut out = String::new();
    if days > 0 {
        push_decimal(&mut out, days);
        out.append("天 ");
    }
    push_decimal(&mut out, hours);
    out.append("小时 ");
    push_decimal(&mut out, minutes);
    out.append("分 ");
    push_decimal(&mut out, secs);
    out.append("秒");
    assert(out@ =~= duration_text(s as nat));
    out
}

/// Whether an IPv6 address from the user-info reply is worth showing: it is neither
/// empty nor the unspecified address `::`.
pub fn ipv6_assigned(ip6: &str) -> (b: bool)
    ensures
        b == (ip6@ != "::"@ && ip6@.len() > 0),
{
    !str_eq(ip6, "::") && !ip6.is_empty()
}

} // verus!
