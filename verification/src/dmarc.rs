//! The typed structure of a DMARC aggregate report, following the schema in
//! appendix C of RFC 7489.  These are plain data records; deserialisation
//! from XML is an outer concern.

use vstd::prelude::*;
use crate::addr::IpAddr;

verus! {

/// A date range, in seconds since the epoch.
#[derive(Debug)]
pub struct DateRange {
    /// Start of the period.
    pub begin: u32,
    /// End of the period.
    pub end: u32,
}

impl Default for DateRange {
    /// The default range is empty.
    fn default() -> (r: Self)
        ensures
            r.begin == 0,
            r.end == 0,
    {
        DateRange { begin: 0, end: 0 }
    }
}

/// Report metadata.
#[derive(Debug)]
pub struct ReportMetadata {
    /// Organisation name.
    pub org_name: String,
    /// Registered email contact.
    pub email: String,
    /// More contact information, possibly absent.
    pub extra_contact_info: Option<String>,
    /// Report identifier.
    pub report_id: String,
    /// The date range the report covers.
    pub date_range: DateRange,
    /// Errors, if any.
    pub errors: Option<Vec<String>>,
}

impl Default for ReportMetadata {
    /// The default metadata is empty.
    fn default() -> (r: Self)
        ensures
            r.org_name@ == Seq::<char>::empty(),
            r.email@ == Seq::<char>::empty(),
            r.extra_contact_info is None,
            r.report_id@ == Seq::<char>::empty(),
            r.date_range.begin == 0 && r.date_range.end == 0,
            r.errors is None,
    {
        ReportMetadata {
            org_name: String::new(),
            email: String::new(),
            extra_contact_info: None,
            report_id: String::new(),
            date_range: DateRange::default(),
            errors: None,
        }
    }
}

/// Alignment (strict or relaxed) for DKIM and SPF.
#[allow(non_camel_case_types)]
#[derive(Clone, Copy, Debug, PartialEq, Eq, Structural)]
pub enum Alignment {
    /// Relaxed alignment.
    r,
    /// Strict alignment.
    s,
}

/// The policy actions specified by `p` and `sp` in the DMARC record.
#[allow(non_camel_case_types)]
#[derive(Clone, Copy, Debug, PartialEq, Eq, Structural)]
pub enum Disposition {
    /// Take no action.
    none,
    /// Quarantine the message.
    quarantine,
    /// Reject the message.
    reject,
}

/// The DMARC policy that applied, as published in the DNS.
#[derive(Debug)]
pub struct PolicyPublished {
    /// The domain at which the DMARC record was found.
    pub domain: String,
    /// The DKIM alignment mode.
    pub adkim: Option<Alignment>,
    /// The SPF alignment mode.
    pub aspf: Option<Alignment>,
    /// The policy applied to messages from the domain.
    pub p: Disposition,
    /// The policy applied to messages from subdomains.
    pub sp: Disposition,
    /// The percentage of messages the policy applies to.
    pub pct: usize,
    /// Failure reporting options in effect.
    pub fo: Option<String>,
}

/// The DMARC-aligned authentication result.
#[allow(non_camel_case_types)]
#[derive(Clone, Copy, Debug, PartialEq, Eq, Structural)]
pub enum DMARCResult {
    /// The check failed.
    fail,
    /// The check passed.
    pass,
}

/// Reasons that may affect the DMARC disposition.
#[allow(non_camel_case_types)]
#[derive(Clone, Copy, Debug, PartialEq, Eq, Structural)]
pub enum PolicyOverride {
    /// The message was forwarded.
    forwarded,
    /// The message was sampled out by `pct`.
    sampled_out,
    /// A trusted forwarder sent the message.
    trusted_forwarder,
    /// The message came through a mailing list.
    mailing_list,
    /// Local policy overrode the disposition.
    local_policy,
    /// Some other reason.
    other,
}

/// An override reason with an optional comment.
#[derive(Debug)]
pub struct PolicyOverrideReason {
    /// The kind of override.
    pub ptype: PolicyOverride,
    /// A textual explanation, possibly absent.
    pub comment: Option<String>,
}

/// The result of applying DMARC to a set of messages.
#[derive(Debug)]
pub struct PolicyEvaluated {
    /// The action taken.
    pub disposition: Disposition,
    /// The DKIM result.
    pub dkim: DMARCResult,
    /// The SPF result.
    pub spf: DMARCResult,
    /// Override reasons, if any.
    pub reason: Option<Vec<PolicyOverrideReason>>,
}

/// One row of the report: a connecting address with its counts and policy.
#[derive(Debug)]
pub struct Row {
    /// The connecting address.
    pub source_ip: IpAddr,
    /// The number of matching messages.
    pub count: u32,
    /// The disposition applying to the matching messages.
    pub policy_evaluated: PolicyEvaluated,
}

/// The identifiers a row was matched by.
#[derive(Debug)]
pub struct Identifier {
    /// The envelope recipient domain, possibly absent.
    pub envelope_to: Option<String>,
    /// The RFC 5321 MailFrom domain.
    pub envelope_from: String,
    /// The RFC 5322 From domain.
    pub header_from: String,
}

impl Default for Identifier {
    /// The default identifier set is empty.
    fn default() -> (r: Self)
        ensures
            r.envelope_to is None,
            r.envelope_from@ == Seq::<char>::empty(),
            r.header_from@ == Seq::<char>::empty(),
    {
        Identifier { envelope_to: None, envelope_from: String::new(), header_from: String::new() }
    }
}

/// A DKIM verification result, after RFC 7001 section 2.6.1.
#[allow(non_camel_case_types)]
#[derive(Clone, Copy, Debug, PartialEq, Eq, Structural)]
pub enum DKIMResult {
    /// No signature present.
    none,
    /// The signature verified.
    pass,
    /// The signature failed.
    fail,
    /// Policy prevented verification.
    policy,
    /// The result was neutral.
    neutral,
    /// A temporary error occurred.
    temperror,
    /// A permanent error occurred.
    permerror,
}

/// One DKIM authentication result.
#[derive(Debug)]
pub struct DKIMAuthResult {
    /// The `d=` parameter of the signature.
    pub domain: String,
    /// The `s=` parameter of the signature, possibly absent.
    pub selector: Option<String>,
    /// The verification result.
    pub result: DKIMResult,
    /// Extra information, possibly absent.
    pub human_result: Option<String>,
}

/// The scope of an SPF check.
#[allow(non_camel_case_types)]
#[derive(Clone, Copy, Debug, PartialEq, Eq, Structural)]
pub enum SPFDomainScope {
    /// The HELO identity.
    helo,
    /// The MAIL FROM identity.
    mfrom,
}

/// An SPF verification result.
#[allow(non_camel_case_types)]
#[derive(Clone, Copy, Debug, PartialEq, Eq, Structural)]
pub enum SPFResult {
    /// No policy found.
    none,
    /// The result was neutral.
    neutral,
    /// The check passed.
    pass,
    /// The check failed.
    fail,
    /// The check soft-failed.
    softfail,
    /// A temporary error occurred.
    temperror,
    /// A permanent error occurred.
    permerror,
}

/// One SPF authentication result.
#[derive(Debug)]
pub struct SPFAuthResult {
    /// The checked domain.
    pub domain: String,
    /// The scope of the check.
    pub scope: SPFDomainScope,
    /// The verification result.
    pub result: SPFResult,
}

/// DKIM and SPF results, uninterpreted with respect to DMARC.
#[derive(Debug)]
pub struct AuthResult {
    /// DKIM signatures; there may be none or several.
    pub dkim: Option<Vec<DKIMAuthResult>>,
    /// SPF results; there is always at least one.
    pub spf: Vec<SPFAuthResult>,
}

/// One evaluated record: a row with its identifiers and raw results.
#[derive(Debug)]
pub struct Record {
    /// Data about the specific row.
    pub row: Row,
    /// The message identifiers.
    pub identifiers: Identifier,
    /// The raw authentication results.
    pub auth_results: Vec<AuthResult>,
}

} // verus!
