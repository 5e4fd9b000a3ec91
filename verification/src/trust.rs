//! Tracking whether clients trust the interception CA, from the outcomes of
//! their TLS handshakes, per client address and per client application.
use vstd::prelude::*;
use vstd::multiset::Multiset;
use crate::text::{lower, contains, str_chars, lower_chars, contains_str, to_owned_string};
use crate::keyed::{keys_unique, has_key, lookup, find_key, lemma_update_value, lemma_push_new, lemma_pos_unique};

use crate::ip_text::{ip_key, ip_value, ip_key_text};

verus! {

// ---------------------------------------------------------------------------
// Failure reasons
// ---------------------------------------------------------------------------

/// Why a TLS accept failed, as far as the error text tells.
#[derive(Debug, Clone, Copy, PartialEq, Eq, Structural)]
pub enum TlsAcceptFailureReason {
    ClientDoesNotTrustCa,
    ProbablyClientDoesNotTrustCa,
    CertificateExpired,
    ProtocolIncompatible,
    ConnectionReset,
    Unknown,
}

/// The snake-case name of a reason.
pub open spec fn reason_text(r: TlsAcceptFailureReason) -> Seq<char> {
    match r {
        TlsAcceptFailureReason::ClientDoesNotTrustCa => "client_does_not_trust_ca"@,
        TlsAcceptFailureReason::ProbablyClientDoesNotTrustCa => "probably_client_does_not_trust_ca"@,
        TlsAcceptFailureReason::CertificateExpired => "certificate_expired"@,
        TlsAcceptFailureReason::ProtocolIncompatible => "protocol_incompatible"@,
        TlsAcceptFailureReason::ConnectionReset => "connection_reset"@,
        TlsAcceptFailureReason::Unknown => "unknown"@,
    }
}

/// Reasons that mean the client rejected the CA.
pub open spec fn is_untrust(r: TlsAcceptFailureReason) -> bool {
    r == TlsAcceptFailureReason::ClientDoesNotTrustCa || r == TlsAcceptFailureReason::ProbablyClientDoesNotTrustCa
}

impl TlsAcceptFailureReason {
    /// The snake-case name of the reason.
    pub fn as_str(&self) -> (s: &'static str)
        ensures
            s@ == reason_text(*self),
    {
        match self {
            TlsAcceptFailureReason::ClientDoesNotTrustCa => "client_does_not_trust_ca",
            TlsAcceptFailureReason::ProbablyClientDoesNotTrustCa => "probably_client_does_not_trust_ca",
            TlsAcceptFailureReason::CertificateExpired => "certificate_expired",
            TlsAcceptFailureReason::ProtocolIncompatible => "protocol_incompatible",
            TlsAcceptFailureReason::ConnectionReset => "connection_reset",
            TlsAcceptFailureReason::Unknown => "unknown",
        }
    }

    /// The name of the reason as an owned string (what `Display` printed).
    pub fn to_string(&self) -> (s: String)
        ensures
            s@ == reason_text(*self),
    {
        to_owned_string(self.as_str())
    }

    pub fn is_untrust(&self) -> (b: bool)
        ensures
            b == is_untrust(*self),
    {
        match self {
            TlsAcceptFailureReason::ClientDoesNotTrustCa => true,
            TlsAcceptFailureReason::ProbablyClientDoesNotTrustCa => true,
            _ => false,
        }
    }
}

/// How an accept error's message (lower-cased) is read.
pub open spec fn classify_spec(msg: Seq<char>) -> TlsAcceptFailureReason {
    let l = lower(msg);
    if contains(l, "unknownca"@) || contains(l, "unknown_ca"@) || contains(l, "unknown ca"@) {
        TlsAcceptFailureReason::ClientDoesNotTrustCa
    } else if contains(l, "badcertificate"@) || contains(l, "bad_certificate"@) || contains(
        l,
        "bad certificate"@,
    ) {
        TlsAcceptFailureReason::ClientDoesNotTrustCa
    } else if contains(l, "certificateunknown"@) || contains(l, "certificate_unknown"@) || contains(
        l,
        "certificate unknown"@,
    ) {
        TlsAcceptFailureReason::ClientDoesNotTrustCa
    } else if contains(l, "decrypt"@) {
        TlsAcceptFailureReason::ProbablyClientDoesNotTrustCa
    } else if contains(l, "certificateexpired"@) || contains(l, "certificate expired"@) {
        TlsAcceptFailureReason::CertificateExpired
    } else if contains(l, "handshakefailure"@) || contains(l, "protocolversion"@) {
        TlsAcceptFailureReason::ProtocolIncompatible
    } else if contains(l, "connection reset"@) || contains(l, "broken pipe"@) || contains(
        l,
        "unexpected eof"@,
    ) {
        TlsAcceptFailureReason::ConnectionReset
    } else {
        TlsAcceptFailureReason::Unknown
    }
}

/// Classifies a TLS accept failure by the text of its error message.
pub fn classify_tls_error_message(msg: &str) -> (r: TlsAcceptFailureReason)
    ensures
        r == classify_spec(msg@),
{
    let mc = str_chars(msg);
    let l = lower_chars(&mc);
    if contains_str(&l, "unknownca") || contains_str(&l, "unknown_ca") || contains_str(&l, "unknown ca") {
        return TlsAcceptFailureReason::ClientDoesNotTrustCa;
    }
    if contains_str(&l, "badcertificate") || contains_str(&l, "bad_certificate") || contains_str(
        &l,
        "bad certificate",
    ) {
        return TlsAcceptFailureReason::ClientDoesNotTrustCa;
    }
    if contains_str(&l, "certificateunknown") || contains_str(&l, "certificate_unknown")
        || contains_str(&l, "certificate unknown") {
        return TlsAcceptFailureReason::ClientDoesNotTrustCa;
    }
    if contains_str(&l, "decrypt") {
        return TlsAcceptFailureReason::ProbablyClientDoesNotTrustCa;
    }
    if contains_str(&l, "certificateexpired") || contains_str(&l, "certificate expired") {
        return TlsAcceptFailureReason::CertificateExpired;
    }
    if contains_str(&l, "handshakefailure") || contains_str(&l, "protocolversion") {
        return TlsAcceptFailureReason::ProtocolIncompatible;
    }
    if contains_str(&l, "connection reset") || contains_str(&l, "broken pipe") || contains_str(
        &l,
        "unexpected eof",
    ) {
        return TlsAcceptFailureReason::ConnectionReset;
    }
    TlsAcceptFailureReason::Unknown
}

#[verifier::external_type_specification]
#[verifier::external_body]
pub struct ExIoError(std::io::Error);

/// The text of an I/O error (`ToString` on `std::io::Error`). Nothing is
/// claimed of it: for operating-system errors the text depends on the system.
#[verifier::external_body]
fn io_error_text(error: &std::io::Error) -> String {
    error.to_string()
}

/// Classifies a TLS accept failure by its error.
pub fn classify_tls_accept_error(error: &std::io::Error) -> (r: TlsAcceptFailureReason)
    ensures
        exists|msg: Seq<char>| r == classify_spec(msg),
{
    let msg = io_error_text(error);
    classify_tls_error_message(msg.as_str())
}

// ---------------------------------------------------------------------------
// Per-client records and their evaluation
// ---------------------------------------------------------------------------

/// Handshake history of one client.
#[derive(Debug)]
pub struct ClientTrustRecord {
    pub first_seen: u64,
    pub last_seen: u64,
    pub last_success_at: Option<u64>,
    pub last_failure_at: Option<u64>,
    pub handshake_success: u32,
    pub handshake_fail_untrust: u32,
    pub handshake_fail_other: u32,
    pub last_failure_reason: Option<TlsAcceptFailureReason>,
    pub last_failure_domain: Option<String>,
}

pub struct RecordModel {
    pub first_seen: u64,
    pub last_seen: u64,
    pub last_success_at: Option<u64>,
    pub last_failure_at: Option<u64>,
    pub handshake_success: u32,
    pub handshake_fail_untrust: u32,
    pub handshake_fail_other: u32,
    pub last_failure_reason: Option<TlsAcceptFailureReason>,
    pub last_failure_domain: Option<Seq<char>>,
}

pub open spec fn opt_view(o: Option<String>) -> Option<Seq<char>> {
    match o {
        Some(s) => Some(s@),
        None => None,
    }
}

impl View for ClientTrustRecord {
    type V = RecordModel;

    open spec fn view(&self) -> RecordModel {
        RecordModel {
            first_seen: self.first_seen,
            last_seen: self.last_seen,
            last_success_at: self.last_success_at,
            last_failure_at: self.last_failure_at,
            handshake_success: self.handshake_success,
            handshake_fail_untrust: self.handshake_fail_untrust,
            handshake_fail_other: self.handshake_fail_other,
            last_failure_reason: self.last_failure_reason,
            last_failure_domain: opt_view(self.last_failure_domain),
        }
    }
}

pub open spec fn new_record(now: u64) -> RecordModel {
    RecordModel {
        first_seen: now,
        last_seen: now,
        last_success_at: None,
        last_failure_at: None,
        handshake_success: 0,
        handshake_fail_untrust: 0,
        handshake_fail_other: 0,
        last_failure_reason: None,
        last_failure_domain: None,
    }
}

pub open spec fn wrap_inc(x: u32) -> u32 {
    if x == u32::MAX {
        0
    } else {
        (x + 1) as u32
    }
}

/// A record after a successful handshake at `now`.
pub open spec fn after_success(r: RecordModel, now: u64) -> RecordModel {
    RecordModel {
        last_seen: now,
        last_success_at: Some(now),
        handshake_success: wrap_inc(r.handshake_success),
        ..r
    }
}

/// A record after a failed handshake at `now`.
pub open spec fn after_failure(
    r: RecordModel,
    now: u64,
    reason: TlsAcceptFailureReason,
    domain: Seq<char>,
) -> RecordModel {
    RecordModel {
        last_seen: now,
        last_failure_at: Some(now),
        last_failure_reason: Some(reason),
        last_failure_domain: Some(domain),
        handshake_fail_untrust: if is_untrust(reason) {
            wrap_inc(r.handshake_fail_untrust)
        } else {
            r.handshake_fail_untrust
        },
        handshake_fail_other: if is_untrust(reason) {
            r.handshake_fail_other
        } else {
            wrap_inc(r.handshake_fail_other)
        },
        ..r
    }
}

/// The trust status of a client.
#[derive(Debug)]
pub enum ClientTrustStatus {
    Trusted,
    NotTrusted { reason: String },
    /// Most handshakes failed for want of trust: `untrust_failures` of `sample_count`.
    LikelyUntrusted { untrust_failures: u32, sample_count: u32 },
    Unknown,
}

pub enum StatusModel {
    Trusted,
    NotTrusted(Seq<char>),
    LikelyUntrusted(u32, u32),
    Unknown,
}

impl View for ClientTrustStatus {
    type V = StatusModel;

    open spec fn view(&self) -> StatusModel {
        match self {
            ClientTrustStatus::Trusted => StatusModel::Trusted,
            ClientTrustStatus::NotTrusted { reason } => StatusModel::NotTrusted(reason@),
            ClientTrustStatus::LikelyUntrusted { untrust_failures, sample_count } => StatusModel::LikelyUntrusted(*untrust_failures, *sample_count),
            ClientTrustStatus::Unknown => StatusModel::Unknown,
        }
    }
}

/// The number of handshakes seen, as a 32-bit count.
pub open spec fn total_handshakes(r: RecordModel) -> u32 {
    ((r.handshake_success + r.handshake_fail_untrust + r.handshake_fail_other) % 0x1_0000_0000) as u32
}

/// The sample size from which a high share of trust failures is read as
/// likely distrust.
pub open spec fn min_sample() -> u32 {
    3
}

/// How a record is judged:
/// - no handshakes: unknown;
/// - trust failures and no success: not trusted;
/// - trust failures, but the last success came after the last failure: trusted;
/// - successes and no trust failure: trusted;
/// - at least three handshakes, more than 80% of them trust failures: likely untrusted;
/// - otherwise unknown.
pub open spec fn eval_trust(r: RecordModel) -> StatusModel {
    let total = total_handshakes(r);
    if total == 0 {
        StatusModel::Unknown
    } else if r.handshake_fail_untrust > 0 && r.handshake_success == 0 {
        StatusModel::NotTrusted(
            match r.last_failure_reason {
                Some(reason) => reason_text(reason),
                None => "unknown"@,
            },
        )
    } else if r.handshake_fail_untrust > 0 && r.handshake_success > 0 && (match (
        r.last_success_at,
        r.last_failure_at,
    ) {
        (Some(s), Some(f)) => s > f,
        _ => false,
    }) {
        StatusModel::Trusted
    } else if r.handshake_fail_untrust == 0 && r.handshake_success > 0 {
        StatusModel::Trusted
    } else if total >= min_sample() && 5 * r.handshake_fail_untrust > 4 * total {
        StatusModel::LikelyUntrusted(r.handshake_fail_untrust, total)
    } else {
        StatusModel::Unknown
    }
}

/// The tag of a status, as events report it.
pub open spec fn status_tag_spec(s: StatusModel) -> Seq<char> {
    match s {
        StatusModel::Trusted => "trusted"@,
        StatusModel::NotTrusted(_) => "not_trusted"@,
        StatusModel::LikelyUntrusted(_, _) => "likely_untrusted"@,
        StatusModel::Unknown => "unknown"@,
    }
}

/// Two statuses of the same kind.
pub open spec fn same_kind(a: StatusModel, b: StatusModel) -> bool {
    match (a, b) {
        (StatusModel::Trusted, StatusModel::Trusted) => true,
        (StatusModel::NotTrusted(_), StatusModel::NotTrusted(_)) => true,
        (StatusModel::LikelyUntrusted(_, _), StatusModel::LikelyUntrusted(_, _)) => true,
        (StatusModel::Unknown, StatusModel::Unknown) => true,
        _ => false,
    }
}

pub open spec fn is_distrust(s: StatusModel) -> bool {
    s is NotTrusted || s is LikelyUntrusted
}

impl ClientTrustRecord {
    pub fn new(now: u64) -> (r: ClientTrustRecord)
        ensures
            r@ == new_record(now),
    {
        ClientTrustRecord {
            first_seen: now,
            last_seen: now,
            last_success_at: None,
            last_failure_at: None,
            handshake_success: 0,
            handshake_fail_untrust: 0,
            handshake_fail_other: 0,
            last_failure_reason: None,
            last_failure_domain: None,
        }
    }

    /// A copy of the record.
    pub fn duplicate(&self) -> (r: ClientTrustRecord)
        ensures
            r@ == self@,
    {
        ClientTrustRecord {
            first_seen: self.first_seen,
            last_seen: self.last_seen,
            last_success_at: self.last_success_at,
            last_failure_at: self.last_failure_at,
            handshake_success: self.handshake_success,
            handshake_fail_untrust: self.handshake_fail_untrust,
            handshake_fail_other: self.handshake_fail_other,
            last_failure_reason: self.last_failure_reason,
            last_failure_domain: match &self.last_failure_domain {
                Some(d) => Some(d.clone()),
                None => None,
            },
        }
    }

    fn apply_success(&mut self, now: u64)
        ensures
            final(self)@ == after_success(old(self)@, now),
    {
        self.last_seen = now;
        self.last_success_at = Some(now);
        self.handshake_success = self.handshake_success.wrapping_add(1);
    }

    fn apply_failure(&mut self, now: u64, reason: TlsAcceptFailureReason, domain: &str)
        ensures
            final(self)@ == after_failure(old(self)@, now, reason, domain@),
    {
        self.last_seen = now;
        self.last_failure_at = Some(now);
        self.last_failure_reason = Some(reason);
        self.last_failure_domain = Some(to_owned_string(domain));
        if reason.is_untrust() {
            self.handshake_fail_untrust = self.handshake_fail_untrust.wrapping_add(1);
        } else {
            self.handshake_fail_other = self.handshake_fail_other.wrapping_add(1);
        }
    }
}

/// Judges a record.
pub fn evaluate_trust(record: &ClientTrustRecord) -> (s: ClientTrustStatus)
    ensures
        s@ == eval_trust(record@),
{
    let total: u32 = record.handshake_success.wrapping_add(record.handshake_fail_untrust).wrapping_add(
        record.handshake_fail_other,
    );
    proof {
        let a = record.handshake_success as int;
        let b = record.handshake_fail_untrust as int;
        let c = record.handshake_fail_other as int;
        assert(total == ((a + b + c) % 0x1_0000_0000) as u32) by (nonlinear_arith)
            requires
                total == (((a + b) % 0x1_0000_0000) + c) % 0x1_0000_0000,
                0 <= a < 0x1_0000_0000,
                0 <= b < 0x1_0000_0000,
                0 <= c < 0x1_0000_0000,
        ;
    }
    if total == 0 {
        return ClientTrustStatus::Unknown;
    }
    if record.handshake_fail_untrust > 0 && record.handshake_success == 0 {
        let reason = match record.last_failure_reason {
            Some(r) => r.to_string(),
            None => to_owned_string("unknown"),
        };
        return ClientTrustStatus::NotTrusted { reason };
    }
    if record.handshake_fail_untrust > 0 && record.handshake_success > 0 {
        match (record.last_success_at, record.last_failure_at) {
            (Some(s), Some(f)) => {
                if s > f {
                    return ClientTrustStatus::Trusted;
                }
            },
            _ => {},
        }
    }
    if record.handshake_fail_untrust == 0 && record.handshake_success > 0 {
        return ClientTrustStatus::Trusted;
    }
    if total >= 3 && (record.handshake_fail_untrust as u64) * 5 > (total as u64) * 4 {
        return ClientTrustStatus::LikelyUntrusted {
            untrust_failures: record.handshake_fail_untrust,
            sample_count: total,
        };
    }
    ClientTrustStatus::Unknown
}

/// The tag of a status.
pub fn status_tag(status: &ClientTrustStatus) -> (s: &'static str)
    ensures
        s@ == status_tag_spec(status@),
{
    match status {
        ClientTrustStatus::Trusted => "trusted",
        ClientTrustStatus::NotTrusted { .. } => "not_trusted",
        ClientTrustStatus::LikelyUntrusted { .. } => "likely_untrusted",
        ClientTrustStatus::Unknown => "unknown",
    }
}

fn same_kind_exec(a: &ClientTrustStatus, b: &ClientTrustStatus) -> (r: bool)
    ensures
        r == same_kind(a@, b@),
{
    match (a, b) {
        (ClientTrustStatus::Trusted, ClientTrustStatus::Trusted) => true,
        (ClientTrustStatus::NotTrusted { .. }, ClientTrustStatus::NotTrusted { .. }) => true,
        (ClientTrustStatus::LikelyUntrusted { .. }, ClientTrustStatus::LikelyUntrusted { .. }) => true,
        (ClientTrustStatus::Unknown, ClientTrustStatus::Unknown) => true,
        _ => false,
    }
}

// ---------------------------------------------------------------------------
// Events
// ---------------------------------------------------------------------------

/// A change of a client's trust status.
#[derive(Debug)]
pub struct ClientTrustEvent {
    pub identifier: String,
    pub identifier_type: String,
    pub old_status: String,
    pub new_status: String,
    pub reason: Option<String>,
    pub domain: Option<String>,
    pub timestamp: u64,
}

/// The content of a status-change event.
pub struct TrustEventModel {
    pub identifier: Seq<char>,
    pub identifier_type: Seq<char>,
    pub old_status: Seq<char>,
    pub new_status: Seq<char>,
    pub reason: Option<Seq<char>>,
    pub domain: Option<Seq<char>>,
    pub timestamp: u64,
}

impl View for ClientTrustEvent {
    type V = TrustEventModel;

    open spec fn view(&self) -> TrustEventModel {
        TrustEventModel {
            identifier: self.identifier@,
            identifier_type: self.identifier_type@,
            old_status: self.old_status@,
            new_status: self.new_status@,
            reason: opt_view(self.reason),
            domain: opt_view(self.domain),
            timestamp: self.timestamp,
        }
    }
}

/// The views of a list of events.
pub open spec fn events_view(v: Seq<ClientTrustEvent>) -> Seq<TrustEventModel> {
    v.map_values(|e: ClientTrustEvent| e@)
}

/// The events announcing a status change of one client: one event with the
/// identifier, its kind, the old and new status tags, the reason and domain
/// and the time when the status changed its kind; none otherwise.
pub open spec fn status_events(
    identifier: Seq<char>,
    kind: Seq<char>,
    old_status: StatusModel,
    new_status: StatusModel,
    reason: Seq<char>,
    domain: Seq<char>,
    now: u64,
) -> Seq<TrustEventModel> {
    if same_kind(old_status, new_status) {
        Seq::empty()
    } else {
        seq![TrustEventModel {
            identifier,
            identifier_type: kind,
            old_status: status_tag_spec(old_status),
            new_status: status_tag_spec(new_status),
            reason: Some(reason),
            domain: Some(domain),
            timestamp: now,
        }]
    }
}

/// The record a client had before, a fresh one when never seen.
pub open spec fn prior(old: Option<RecordModel>, now: u64) -> RecordModel {
    match old {
        Some(r) => r,
        None => new_record(now),
    }
}

/// The event for a status change, `None` when the status kept its kind.
pub fn maybe_emit_event(
    identifier: &str,
    identifier_type: &str,
    old_status: &ClientTrustStatus,
    new_status: &ClientTrustStatus,
    event_ctx: Option<(String, String)>,
    now: u64,
) -> (r: Option<ClientTrustEvent>)
    ensures
        r is Some <==> !same_kind(old_status@, new_status@),
        r matches Some(e) ==> {
            &&& e.identifier@ == identifier@
            &&& e.identifier_type@ == identifier_type@
            &&& e.old_status@ == status_tag_spec(old_status@)
            &&& e.new_status@ == status_tag_spec(new_status@)
            &&& e.timestamp == now
            &&& match event_ctx {
                Some((reason, domain)) => opt_view(e.reason) == Some(reason@) && opt_view(e.domain) == Some(domain@),
                None => e.reason is None && e.domain is None,
            }
        },
{
    if same_kind_exec(old_status, new_status) {
        return None;
    }
    let (reason, domain) = match event_ctx {
        Some((r, d)) => (Some(r), Some(d)),
        None => (None, None),
    };
    Some(
        ClientTrustEvent {
            identifier: to_owned_string(identifier),
            identifier_type: to_owned_string(identifier_type),
            old_status: to_owned_string(status_tag(old_status)),
            new_status: to_owned_string(status_tag(new_status)),
            reason,
            domain,
            timestamp: now,
        },
    )
}

// ---------------------------------------------------------------------------
// The tracker
// ---------------------------------------------------------------------------

/// The record stored under a key, by its model.
pub open spec fn record_of(es: Seq<(String, ClientTrustRecord)>, k: Seq<char>) -> Option<RecordModel> {
    match lookup(es, k) {
        Some(r) => Some(r@),
        None => None,
    }
}

/// The record of a client after a successful handshake.
pub open spec fn succeeded(old: Option<RecordModel>, now: u64) -> RecordModel {
    after_success(
        match old {
            Some(r) => r,
            None => new_record(now),
        },
        now,
    )
}

/// The record of a client after a failed handshake.
pub open spec fn failed(
    old: Option<RecordModel>,
    now: u64,
    reason: TlsAcceptFailureReason,
    domain: Seq<char>,
) -> RecordModel {
    after_failure(
        match old {
            Some(r) => r,
            None => new_record(now),
        },
        now,
        reason,
        domain,
    )
}

/// Trust records by client address (in its canonical text form) and by
/// client application name.
pub struct ClientTlsTrustTracker {
    by_ip: Vec<(String, ClientTrustRecord)>,
    by_app: Vec<(String, ClientTrustRecord)>,
}

/// The outcome of recording a handshake in one table.
pub struct TableUpdate {
    pub old_status: ClientTrustStatus,
    pub new_status: ClientTrustStatus,
}

/// Records a success under `key`: the old and new status of that key.
fn table_success(es: &mut Vec<(String, ClientTrustRecord)>, key: &str, now: u64) -> (u: TableUpdate)
    requires
        keys_unique(old(es)@),
    ensures
        keys_unique(final(es)@),
        record_of(final(es)@, key@) == Some(succeeded(record_of(old(es)@, key@), now)),
        forall|k: Seq<char>| k != key@ ==> record_of(final(es)@, k) == record_of(old(es)@, k),
        forall|k: Seq<char>| has_key(final(es)@, k) == (has_key(old(es)@, k) || k == key@),
        u.old_status@ == eval_trust(match record_of(old(es)@, key@) { Some(r) => r, None => new_record(now) }),
        u.new_status@ == eval_trust(succeeded(record_of(old(es)@, key@), now)),
{
    match find_key(es, key) {
        Some(i) => {
            proof {
                lemma_pos_unique(es@, key@, i as int);
            }
            let mut rec = es[i].1.duplicate();
            let old_status = evaluate_trust(&rec);
            rec.apply_success(now);
            let new_status = evaluate_trust(&rec);
            let k = es[i].0.clone();
            proof {
                lemma_update_value(es@, i as int, (k, rec));
            }
            es.set(i, (k, rec));
            TableUpdate { old_status, new_status }
        },
        None => {
            let mut rec = ClientTrustRecord::new(now);
            let old_status = evaluate_trust(&rec);
            rec.apply_success(now);
            let new_status = evaluate_trust(&rec);
            let k = to_owned_string(key);
            proof {
                lemma_push_new(es@, (k, rec));
            }
            es.push((k, rec));
            TableUpdate { old_status, new_status }
        },
    }
}

/// Records a failure under `key`: the old and new status of that key.
fn table_failure(
    es: &mut Vec<(String, ClientTrustRecord)>,
    key: &str,
    now: u64,
    reason: TlsAcceptFailureReason,
    domain: &str,
) -> (u: TableUpdate)
    requires
        keys_unique(old(es)@),
    ensures
        keys_unique(final(es)@),
        record_of(final(es)@, key@) == Some(failed(record_of(old(es)@, key@), now, reason, domain@)),
        forall|k: Seq<char>| k != key@ ==> record_of(final(es)@, k) == record_of(old(es)@, k),
        forall|k: Seq<char>| has_key(final(es)@, k) == (has_key(old(es)@, k) || k == key@),
        u.old_status@ == eval_trust(match record_of(old(es)@, key@) { Some(r) => r, None => new_record(now) }),
        u.new_status@ == eval_trust(failed(record_of(old(es)@, key@), now, reason, domain@)),
{
    match find_key(es, key) {
        Some(i) => {
            proof {
                lemma_pos_unique(es@, key@, i as int);
            }
            let mut rec = es[i].1.duplicate();
            let old_status = evaluate_trust(&rec);
            rec.apply_failure(now, reason, domain);
            let new_status = evaluate_trust(&rec);
            let k = es[i].0.clone();
            proof {
                lemma_update_value(es@, i as int, (k, rec));
            }
            es.set(i, (k, rec));
            TableUpdate { old_status, new_status }
        },
        None => {
            let mut rec = ClientTrustRecord::new(now);
            let old_status = evaluate_trust(&rec);
            rec.apply_failure(now, reason, domain);
            let new_status = evaluate_trust(&rec);
            let k = to_owned_string(key);
            proof {
                lemma_push_new(es@, (k, rec));
            }
            es.push((k, rec));
            TableUpdate { old_status, new_status }
        },
    }
}

/// The status recorded under `key`, `Unknown` for a key never seen.
fn table_status(es: &Vec<(String, ClientTrustRecord)>, key: &str) -> (s: ClientTrustStatus)
    requires
        keys_unique(es@),
    ensures
        s@ == match record_of(es@, key@) {
            Some(r) => eval_trust(r),
            None => StatusModel::Unknown,
        },
{
    match find_key(es, key) {
        Some(i) => {
            proof {
                lemma_pos_unique(es@, key@, i as int);
            }
            evaluate_trust(&es[i].1)
        },
        None => ClientTrustStatus::Unknown,
    }
}

/// Number of entries whose status is a form of distrust.
pub open spec fn distrust_count(es: Seq<(String, ClientTrustRecord)>) -> nat
    decreases es.len(),
{
    if es.len() == 0 {
        0
    } else {
        distrust_count(es.drop_last()) + if is_distrust(eval_trust(es.last().1@)) {
            1nat
        } else {
            0nat
        }
    }
}

fn table_distrust_count(es: &Vec<(String, ClientTrustRecord)>) -> (n: usize)
    ensures
        n == distrust_count(es@),
{
    let mut n: usize = 0;
    let mut i: usize = 0;
    while i < es.len()
        invariant
            i <= es@.len(),
            n == distrust_count(es@.take(i as int)),
            n <= i,
        decreases es@.len() - i,
    {
        proof {
            assert(es@.take(i + 1).drop_last() =~= es@.take(i as int));
        }
        let s = evaluate_trust(&es[i].1);
        match s {
            ClientTrustStatus::NotTrusted { .. } => {
                n = n + 1;
            },
            ClientTrustStatus::LikelyUntrusted { .. } => {
                n = n + 1;
            },
            _ => {},
        }
        i = i + 1;
    }
    assert(es@.take(es@.len() as int) =~= es@);
    n
}

/// One row of the trust overview.
pub struct ClientTrustSummary {
    pub identifier: String,
    pub identifier_type: String,
    pub trust_status: ClientTrustStatus,
    pub handshake_success: u32,
    pub handshake_fail_untrust: u32,
    pub handshake_fail_other: u32,
    pub first_seen: u64,
    pub last_seen: u64,
    pub last_failure_domain: Option<String>,
    pub last_failure_reason: Option<String>,
}

/// The model of a summary row.
pub struct SummaryModel {
    pub identifier: Seq<char>,
    pub identifier_type: Seq<char>,
    pub status: StatusModel,
    pub handshake_success: u32,
    pub handshake_fail_untrust: u32,
    pub handshake_fail_other: u32,
    pub first_seen: u64,
    pub last_seen: u64,
    pub last_failure_domain: Option<Seq<char>>,
    pub last_failure_reason: Option<Seq<char>>,
}

impl View for ClientTrustSummary {
    type V = SummaryModel;

    open spec fn view(&self) -> SummaryModel {
        SummaryModel {
            identifier: self.identifier@,
            identifier_type: self.identifier_type@,
            status: self.trust_status@,
            handshake_success: self.handshake_success,
            handshake_fail_untrust: self.handshake_fail_untrust,
            handshake_fail_other: self.handshake_fail_other,
            first_seen: self.first_seen,
            last_seen: self.last_seen,
            last_failure_domain: opt_view(self.last_failure_domain),
            last_failure_reason: opt_view(self.last_failure_reason),
        }
    }
}

/// The summary row of a record.
pub open spec fn summary_of(identifier: Seq<char>, kind: Seq<char>, r: RecordModel) -> SummaryModel {
    SummaryModel {
        identifier,
        identifier_type: kind,
        status: eval_trust(r),
        handshake_success: r.handshake_success,
        handshake_fail_untrust: r.handshake_fail_untrust,
        handshake_fail_other: r.handshake_fail_other,
        first_seen: r.first_seen,
        last_seen: r.last_seen,
        last_failure_domain: r.last_failure_domain,
        last_failure_reason: match r.last_failure_reason {
            Some(reason) => Some(reason_text(reason)),
            None => None,
        },
    }
}

/// The summary rows of a table, in table order.
pub open spec fn table_summaries(es: Seq<(String, ClientTrustRecord)>, kind: Seq<char>) -> Seq<SummaryModel> {
    es.map_values(|e: (String, ClientTrustRecord)| summary_of(e.0@, kind, e.1@))
}

/// The views of summary rows.
pub open spec fn summaries_view(v: Seq<ClientTrustSummary>) -> Seq<SummaryModel> {
    v.map_values(|x: ClientTrustSummary| x@)
}

/// Rows ordered by last activity, most recent first.
pub open spec fn recent_first(v: Seq<SummaryModel>) -> bool {
    forall|i: int, j: int| 0 <= i < j < v.len() ==> v[i].last_seen >= v[j].last_seen
}

/// The summary row of a table entry.
fn summarize(key: &String, kind: &str, record: &ClientTrustRecord) -> (s: ClientTrustSummary)
    ensures
        s@ == summary_of(key@, kind@, record@),
{
    ClientTrustSummary {
        identifier: key.clone(),
        identifier_type: to_owned_string(kind),
        trust_status: evaluate_trust(record),
        handshake_success: record.handshake_success,
        handshake_fail_untrust: record.handshake_fail_untrust,
        handshake_fail_other: record.handshake_fail_other,
        first_seen: record.first_seen,
        last_seen: record.last_seen,
        last_failure_domain: match &record.last_failure_domain {
            Some(d) => Some(d.clone()),
            None => None,
        },
        last_failure_reason: match record.last_failure_reason {
            Some(r) => Some(r.to_string()),
            None => None,
        },
    }
}

/// Inserts a row into rows ordered most recent first, after the rows that
/// are as recent.
fn insert_recent_first(out: &mut Vec<ClientTrustSummary>, x: ClientTrustSummary)
    requires
        recent_first(summaries_view(old(out)@)),
    ensures
        recent_first(summaries_view(final(out)@)),
        summaries_view(final(out)@).to_multiset() == summaries_view(old(out)@).to_multiset().insert(x@),
{
    let ghost xv = x@;
    let mut p: usize = 0;
    while p < out.len() && out[p].last_seen >= x.last_seen
        invariant
            p <= out@.len(),
            xv == x@,
            forall|k: int| 0 <= k < p ==> #[trigger] out@[k].last_seen >= x.last_seen,
        decreases out@.len() - p,
    {
        p = p + 1;
    }
    let ghost before = summaries_view(out@);
    out.insert(p, x);
    proof {
        let after = summaries_view(out@);
        assert(after =~= before.insert(p as int, xv));
        vstd::seq_lib::to_multiset_insert(before, p as int, xv);
        assert forall|i: int, j: int| 0 <= i < j < after.len() implies after[i].last_seen >= after[j].last_seen by {
            if j < p {
                assert(after[i] == before[i] && after[j] == before[j]);
            } else if j == p {
                assert(after[i] == before[i]);
            } else if i < p {
                assert(after[i] == before[i] && after[j] == before[j - 1]);
                if p < before.len() {
                    assert(before[i].last_seen >= before[j - 1].last_seen);
                }
            } else if i == p {
                assert(after[j] == before[j - 1]);
                assert(!(before[p as int].last_seen >= xv.last_seen));
                assert(before[p as int].last_seen >= before[j - 1].last_seen || j - 1 == p);
            } else {
                assert(after[i] == before[i - 1] && after[j] == before[j - 1]);
            }
        }
    }
}

/// The rows of a table added to `out`, keeping it most recent first.
fn add_table_rows(out: &mut Vec<ClientTrustSummary>, es: &Vec<(String, ClientTrustRecord)>, kind: &str)
    requires
        recent_first(summaries_view(old(out)@)),
    ensures
        recent_first(summaries_view(final(out)@)),
        summaries_view(final(out)@).to_multiset() == summaries_view(old(out)@).to_multiset().add(table_summaries(es@, kind@).to_multiset()),
{
    let ghost base = summaries_view(out@).to_multiset();
    let ghost ts = table_summaries(es@, kind@);
    let mut i: usize = 0;
    proof {
        broadcast use vstd::multiset::group_multiset_axioms;
        assert(ts.take(0) =~= Seq::<SummaryModel>::empty());
        vstd::seq_lib::to_multiset_len(ts.take(0));
        vstd::multiset::lemma_multiset_empty_len(ts.take(0).to_multiset());
        assert(base.add(ts.take(0).to_multiset()) =~= base);
    }
    while i < es.len()
        invariant
            i <= es@.len(),
            ts == table_summaries(es@, kind@),
            recent_first(summaries_view(out@)),
            summaries_view(out@).to_multiset() == base.add(ts.take(i as int).to_multiset()),
        decreases es@.len() - i,
    {
        let row = summarize(&es[i].0, kind, &es[i].1);
        insert_recent_first(out, row);
        proof {
            broadcast use vstd::multiset::group_multiset_axioms;
            assert(ts.take(i + 1) =~= ts.take(i as int).push(ts[i as int]));
            vstd::seq_lib::to_multiset_build(ts.take(i as int), ts[i as int]);
            assert(base.add(ts.take(i + 1).to_multiset()) =~= base.add(ts.take(i as int).to_multiset()).insert(ts[i as int]));
        }
        i = i + 1;
    }
    proof {
        assert(ts.take(i as int) =~= ts);
    }
}

impl ClientTlsTrustTracker {
    /// The tracker's entries have distinct keys.
    pub closed spec fn wf(&self) -> bool {
        keys_unique(self.by_ip@) && keys_unique(self.by_app@)
    }

    /// The record of a client address.
    pub closed spec fn ip_record(&self, ip: Seq<char>) -> Option<RecordModel> {
        record_of(self.by_ip@, ip)
    }

    /// The record of a client application.
    pub closed spec fn app_record(&self, app: Seq<char>) -> Option<RecordModel> {
        record_of(self.by_app@, app)
    }

    /// Number of records (addresses and applications) judged distrustful.
    pub closed spec fn distrust_total(&self) -> nat {
        distrust_count(self.by_ip@) + distrust_count(self.by_app@)
    }

    /// Number of records held.
    pub closed spec fn record_total(&self) -> nat {
        self.by_ip@.len() + self.by_app@.len()
    }

    pub fn new() -> (t: ClientTlsTrustTracker)
        ensures
            t.wf(),
            forall|k: Seq<char>| t.ip_record(k) is None && t.app_record(k) is None,
            t.record_total() == 0,
    {
        ClientTlsTrustTracker { by_ip: Vec::new(), by_app: Vec::new() }
    }

    /// Records a successful handshake. The client address counts only when
    /// its text is an IP address, and is recorded under the address's key
    /// (two texts of one address are one client). Returns the status-change
    /// events, address first; the address event names the text as given.
    pub fn record_handshake_success(
        &mut self,
        client_ip: &str,
        client_app: Option<&str>,
        domain: &str,
        now: u64,
    ) -> (events: Vec<ClientTrustEvent>)
        requires
            old(self).wf(),
        ensures
            final(self).wf(),
            match ip_value(client_ip@) {
                Some(a) => final(self).ip_record(ip_key_text(a)) == Some(succeeded(old(self).ip_record(ip_key_text(a)), now))
                    && forall|k: Seq<char>| k != ip_key_text(a) ==> final(self).ip_record(k) == old(self).ip_record(k),
                None => forall|k: Seq<char>| final(self).ip_record(k) == old(self).ip_record(k),
            },
            match client_app {
                Some(app) if app@.len() > 0 => final(self).app_record(app@) == Some(succeeded(old(self).app_record(app@), now))
                    && forall|k: Seq<char>| k != app@ ==> final(self).app_record(k) == old(self).app_record(k),
                _ => forall|k: Seq<char>| final(self).app_record(k) == old(self).app_record(k),
            },
            events_view(events@) == (match ip_value(client_ip@) {
                Some(a) => status_events(client_ip@, "ip"@, eval_trust(prior(old(self).ip_record(ip_key_text(a)), now)),
                    eval_trust(succeeded(old(self).ip_record(ip_key_text(a)), now)), "handshake_success"@, domain@, now),
                None => Seq::empty(),
            }) + (match client_app {
                Some(app) if app@.len() > 0 => status_events(app@, "app"@, eval_trust(prior(old(self).app_record(app@), now)),
                    eval_trust(succeeded(old(self).app_record(app@), now)), "handshake_success"@, domain@, now),
                _ => Seq::empty(),
            }),
    {
        proof {
            reveal_strlit("ip");
            reveal_strlit("app");
            reveal_strlit("handshake_success");
        }
        let mut events: Vec<ClientTrustEvent> = Vec::new();
        if let Some(key) = ip_key(client_ip) {
            let u = table_success(&mut self.by_ip, key.as_str(), now);
            let ctx = Some((to_owned_string("handshake_success"), to_owned_string(domain)));
            if let Some(e) = maybe_emit_event(client_ip, "ip", &u.old_status, &u.new_status, ctx, now) {
                events.push(e);
            }
        }
        if let Some(app) = client_app {
            if !app.is_empty() {
                proof {
                    assert(app@.len() > 0);
                }
                let u = table_success(&mut self.by_app, app, now);
                let ctx = Some((to_owned_string("handshake_success"), to_owned_string(domain)));
                if let Some(e) = maybe_emit_event(app, "app", &u.old_status, &u.new_status, ctx, now) {
                    events.push(e);
                }
            } else {
                proof {
                    assert(app@.len() == 0);
                }
            }
        }
        events
    }

    /// Records a failed handshake and its reason, the client address as for
    /// a success. Returns the status-change events, address first.
    pub fn record_handshake_failure(
        &mut self,
        client_ip: &str,
        client_app: Option<&str>,
        domain: &str,
        reason: &TlsAcceptFailureReason,
        now: u64,
    ) -> (events: Vec<ClientTrustEvent>)
        requires
            old(self).wf(),
        ensures
            final(self).wf(),
            match ip_value(client_ip@) {
                Some(a) => final(self).ip_record(ip_key_text(a)) == Some(failed(old(self).ip_record(ip_key_text(a)), now, *reason, domain@))
                    && forall|k: Seq<char>| k != ip_key_text(a) ==> final(self).ip_record(k) == old(self).ip_record(k),
                None => forall|k: Seq<char>| final(self).ip_record(k) == old(self).ip_record(k),
            },
            match client_app {
                Some(app) if app@.len() > 0 => final(self).app_record(app@) == Some(failed(old(self).app_record(app@), now, *reason, domain@))
                    && forall|k: Seq<char>| k != app@ ==> final(self).app_record(k) == old(self).app_record(k),
                _ => forall|k: Seq<char>| final(self).app_record(k) == old(self).app_record(k),
            },
            events_view(events@) == (match ip_value(client_ip@) {
                Some(a) => status_events(client_ip@, "ip"@, eval_trust(prior(old(self).ip_record(ip_key_text(a)), now)),
                    eval_trust(failed(old(self).ip_record(ip_key_text(a)), now, *reason, domain@)), reason_text(*reason), domain@, now),
                None => Seq::empty(),
            }) + (match client_app {
                Some(app) if app@.len() > 0 => status_events(app@, "app"@, eval_trust(prior(old(self).app_record(app@), now)),
                    eval_trust(failed(old(self).app_record(app@), now, *reason, domain@)), reason_text(*reason), domain@, now),
                _ => Seq::empty(),
            }),
    {
        proof {
            reveal_strlit("ip");
            reveal_strlit("app");
        }
        let mut events: Vec<ClientTrustEvent> = Vec::new();
        let r = *reason;
        if let Some(key) = ip_key(client_ip) {
            let u = table_failure(&mut self.by_ip, key.as_str(), now, r, domain);
            let ctx = Some((r.to_string(), to_owned_string(domain)));
            if let Some(e) = maybe_emit_event(client_ip, "ip", &u.old_status, &u.new_status, ctx, now) {
                events.push(e);
            }
        }
        if let Some(app) = client_app {
            if !app.is_empty() {
                proof {
                    assert(app@.len() > 0);
                }
                let u = table_failure(&mut self.by_app, app, now, r, domain);
                let ctx = Some((r.to_string(), to_owned_string(domain)));
                if let Some(e) = maybe_emit_event(app, "app", &u.old_status, &u.new_status, ctx, now) {
                    events.push(e);
                }
            } else {
                proof {
                    assert(app@.len() == 0);
                }
            }
        }
        events
    }

    /// The status of a client address, by the address its text names.
    pub fn get_trust_status_by_ip(&self, ip: &str) -> (s: ClientTrustStatus)
        requires
            self.wf(),
        ensures
            s@ == match ip_value(ip@) {
                Some(a) => match self.ip_record(ip_key_text(a)) {
                    Some(r) => eval_trust(r),
                    None => StatusModel::Unknown,
                },
                None => StatusModel::Unknown,
            },
    {
        match ip_key(ip) {
            Some(key) => table_status(&self.by_ip, key.as_str()),
            None => ClientTrustStatus::Unknown,
        }
    }

    /// The status of a client application.
    pub fn get_trust_status_by_app(&self, app: &str) -> (s: ClientTrustStatus)
        requires
            self.wf(),
        ensures
            s@ == match self.app_record(app@) {
                Some(r) => eval_trust(r),
                None => StatusModel::Unknown,
            },
    {
        table_status(&self.by_app, app)
    }

    /// Number of addresses and applications judged distrustful.
    /// (The sum saturates at `usize::MAX`, a count no memory can hold.)
    pub fn get_untrusted_count(&self) -> (n: usize)
        ensures
            n == if self.distrust_total() <= usize::MAX { self.distrust_total() } else { usize::MAX as nat },
    {
        let a = table_distrust_count(&self.by_ip);
        let b = table_distrust_count(&self.by_app);
        a.saturating_add(b)
    }

    /// The summary rows of all records, addresses and applications, most
    /// recently active first.
    pub closed spec fn summaries(&self) -> Multiset<SummaryModel> {
        table_summaries(self.by_ip@, "ip"@).to_multiset().add(table_summaries(self.by_app@, "app"@).to_multiset())
    }

    /// The trust overview: one row per record, most recently active first.
    pub fn get_all_statuses(&self) -> (v: Vec<ClientTrustSummary>)
        ensures
            summaries_view(v@).to_multiset() == self.summaries(),
            recent_first(summaries_view(v@)),
            v@.len() == self.record_total(),
    {
        let mut out: Vec<ClientTrustSummary> = Vec::new();
        proof {
            broadcast use vstd::multiset::group_multiset_axioms;
            assert(summaries_view(out@) =~= Seq::<SummaryModel>::empty());
            vstd::seq_lib::to_multiset_len(summaries_view(out@));
            vstd::multiset::lemma_multiset_empty_len(summaries_view(out@).to_multiset());
        }
        add_table_rows(&mut out, &self.by_ip, "ip");
        add_table_rows(&mut out, &self.by_app, "app");
        proof {
            broadcast use vstd::multiset::group_multiset_axioms;
            assert(Multiset::<SummaryModel>::empty().add(table_summaries(self.by_ip@, "ip"@).to_multiset()) =~= table_summaries(self.by_ip@, "ip"@).to_multiset());
            vstd::seq_lib::to_multiset_len(summaries_view(out@));
            vstd::seq_lib::to_multiset_len(table_summaries(self.by_ip@, "ip"@));
            vstd::seq_lib::to_multiset_len(table_summaries(self.by_app@, "app"@));
        }
        out
    }

    /// Forgets every record.
    pub fn clear(&mut self)
        ensures
            final(self).wf(),
            forall|k: Seq<char>| final(self).ip_record(k) is None && final(self).app_record(k) is None,
            final(self).record_total() == 0,
    {
        self.by_ip = Vec::new();
        self.by_app = Vec::new();
    }
}

// ---------------------------------------------------------------------------
// Laws
// ---------------------------------------------------------------------------

/// A client never seen is of unknown trust, and so is a fresh record.
pub proof fn lemma_fresh_record_unknown(now: u64)
    ensures
        eval_trust(new_record(now)) == StatusModel::Unknown,
{
}

/// A successful handshake that comes after every failure makes a client
/// trusted (counters far from wrapping).
pub proof fn lemma_success_after_failures_trusts(r: RecordModel, now: u64)
    requires
        r.handshake_success as int + r.handshake_fail_untrust + r.handshake_fail_other + 1 < 0x1_0000_0000,
        r.handshake_fail_untrust > 0 ==> (r.last_failure_at matches Some(f) && f < now),
    ensures
        eval_trust(after_success(r, now)) == StatusModel::Trusted,
{
}

/// A rejected certificate from a client that never completed a handshake
/// makes it not trusted, naming the reason.
pub proof fn lemma_untrust_failure_without_success(r: RecordModel, now: u64, reason: TlsAcceptFailureReason, domain: Seq<char>)
    requires
        is_untrust(reason),
        r.handshake_success == 0,
        r.handshake_fail_untrust as int + r.handshake_fail_other + 1 < 0x1_0000_0000,
    ensures
        eval_trust(after_failure(r, now, reason, domain)) == StatusModel::NotTrusted(reason_text(reason)),
{
}

/// Failures that are not about trust never make a client distrusted by
/// themselves: a record with no trust failure is trusted or unknown.
pub proof fn lemma_no_trust_failure_no_distrust(r: RecordModel)
    requires
        r.handshake_fail_untrust == 0,
    ensures
        !is_distrust(eval_trust(r)),
{
}

/// "Likely untrusted" is reached only from a share of trust failures among
/// all handshakes, successes included: it reports the trust failures and the
/// number of handshakes, at least three of them, with the failures more than
/// four fifths of that number. A record whose trust failures are at most four
/// fifths of its handshakes is never judged likely untrusted (counters far
/// from wrapping).
pub proof fn lemma_likely_untrusted_share(r: RecordModel)
    requires
        r.handshake_success as int + r.handshake_fail_untrust + r.handshake_fail_other < 0x1_0000_0000,
    ensures
        eval_trust(r) matches StatusModel::LikelyUntrusted(u, n) ==> {
            &&& u == r.handshake_fail_untrust
            &&& n == r.handshake_success as int + r.handshake_fail_untrust + r.handshake_fail_other
            &&& n >= 3
            &&& 5 * u > 4 * n
        },
        5 * (r.handshake_fail_untrust as int) <= 4 * (r.handshake_success as int
            + r.handshake_fail_untrust + r.handshake_fail_other) ==> !(eval_trust(r) is LikelyUntrusted),
{
}

/// A client with at least three handshakes, some of them successful, more
/// than four fifths of them trust failures, and no success after its last
/// failure is judged likely untrusted, with those counts (counters far from
/// wrapping).
pub proof fn lemma_high_failure_share_likely_untrusted(r: RecordModel)
    requires
        r.handshake_success as int + r.handshake_fail_untrust + r.handshake_fail_other < 0x1_0000_0000,
        r.handshake_success > 0,
        r.handshake_fail_untrust > 0,
        !(r.last_success_at matches Some(s) && r.last_failure_at matches Some(f) && s > f),
        r.handshake_success as int + r.handshake_fail_untrust + r.handshake_fail_other >= 3,
        5 * (r.handshake_fail_untrust as int) > 4 * (r.handshake_success as int
            + r.handshake_fail_untrust + r.handshake_fail_other),
    ensures
        eval_trust(r) == StatusModel::LikelyUntrusted(
            r.handshake_fail_untrust,
            (r.handshake_success + r.handshake_fail_untrust + r.handshake_fail_other) as u32,
        ),
{
}

} // verus!
