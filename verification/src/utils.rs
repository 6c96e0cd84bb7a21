//! Environment lookups: the machine's hostname and the current time.
//! Both depend on the machine, so nothing is promised of their values.

use vstd::prelude::*;

verus! {

/// Relies on `sysinfo::System::host_name`: the DNS hostname of this
/// machine, if it can be determined. The result depends on the machine,
/// so nothing is promised of it.
#[verifier::external_body]
fn host_name_raw() -> (r: Option<String>) {
    sysinfo::System::host_name()
}

/// The hostname of this computer, or a placeholder.
pub fn current_hostname() -> (r: String) {
    match host_name_raw() {
        Some(h) => h,
        None => "<unknown>".to_owned(),
    }
}

/// Relies on `time::OffsetDateTime::now_utc` and its RFC-3339 formatting:
/// the current UTC instant as text. The result depends on the clock, so
/// nothing is promised of it. A formatting failure (a clock outside the
/// four-digit-year range RFC 3339 can carry) yields an empty string;
/// `now_utc` itself panics if the clock lies outside the range the `time`
/// crate can represent at all, roughly year -9999 to 9999.
#[verifier::external_body]
pub(crate) fn now_rfc3339() -> (r: String) {
    match time::OffsetDateTime::now_utc().format(
        &time::format_description::well_known::Rfc3339,
    ) {
        Ok(s) => s,
        Err(_) => String::new(),
    }
}

} // verus!
