//! Proxy settings that the admin interface reads and changes: TLS
//! interception and traffic recording limits, how an update request changes
//! them, and which open connections a TLS change disconnects.
use vstd::prelude::*;
use crate::text::{strings_view, strings_contain};
use crate::body::{BodyStoreStats, BodyStoreConfigUpdate};

verus! {

/// TLS interception settings.
#[derive(Debug, Clone)]
pub struct TlsConfig {
    pub enable_tls_interception: bool,
    pub intercept_exclude: Vec<String>,
    pub intercept_include: Vec<String>,
    pub unsafe_ssl: bool,
    pub disconnect_on_config_change: bool,
}

/// The proxy settings shown to the administrator.
#[derive(Debug, Clone)]
pub struct ProxySettingsResponse {
    pub tls: TlsConfig,
    pub port: u16,
    pub host: String,
}

/// A change of TLS settings; absent fields stay.
pub struct UpdateTlsConfigRequest {
    pub enable_tls_interception: Option<bool>,
    pub intercept_exclude: Option<Vec<String>>,
    pub intercept_include: Option<Vec<String>>,
    pub unsafe_ssl: Option<bool>,
    pub disconnect_on_config_change: Option<bool>,
}

/// The model of TLS settings.
pub struct TlsModel {
    pub enabled: bool,
    pub exclusions: Seq<Seq<char>>,
    pub inclusions: Seq<Seq<char>>,
    pub unsafe_ssl: bool,
    pub disconnect_on_change: bool,
}

impl TlsConfig {
    pub open spec fn model(&self) -> TlsModel {
        TlsModel {
            enabled: self.enable_tls_interception,
            exclusions: strings_view(self.intercept_exclude@),
            inclusions: strings_view(self.intercept_include@),
            unsafe_ssl: self.unsafe_ssl,
            disconnect_on_change: self.disconnect_on_config_change,
        }
    }
}

/// The optional pattern lists of a request, by their views.
pub open spec fn opt_strings(o: Option<Vec<String>>) -> Option<Seq<Seq<char>>> {
    match o {
        Some(v) => Some(strings_view(v@)),
        None => None,
    }
}

/// The items of `xs` that are not in `ys`, in order.
pub open spec fn not_in(xs: Seq<Seq<char>>, ys: Seq<Seq<char>>) -> Seq<Seq<char>>
    decreases xs.len(),
{
    if xs.len() == 0 {
        Seq::empty()
    } else {
        let prev = not_in(xs.drop_last(), ys);
        if ys.contains(xs.last()) {
            prev
        } else {
            prev.push(xs.last())
        }
    }
}

/// The patterns a list change touches: those added, then those removed.
pub open spec fn changed_patterns(old: Seq<Seq<char>>, new: Option<Seq<Seq<char>>>) -> Seq<Seq<char>> {
    match new {
        Some(n) => not_in(n, old) + not_in(old, n),
        None => Seq::empty(),
    }
}

/// The settings after an update request.
pub open spec fn tls_after(m: TlsModel, enable: Option<bool>, exclusions: Option<Seq<Seq<char>>>,
    inclusions: Option<Seq<Seq<char>>>, unsafe_ssl: Option<bool>, disconnect: Option<bool>) -> TlsModel {
    TlsModel {
        enabled: match enable { Some(e) => e, None => m.enabled },
        exclusions: match exclusions { Some(x) => x, None => m.exclusions },
        inclusions: match inclusions { Some(x) => x, None => m.inclusions },
        unsafe_ssl: match unsafe_ssl { Some(u) => u, None => m.unsafe_ssl },
        disconnect_on_change: match disconnect { Some(d) => d, None => m.disconnect_on_change },
    }
}

/// What open connections a TLS change disconnects.
pub enum DisconnectAction {
    /// Nothing.
    Keep,
    /// Every connection; `intercept_disabled` tells which mode the
    /// connections to close were made in (interception now off).
    All { intercept_disabled: bool },
    /// The connections to hosts matching these patterns.
    Patterns(Vec<String>),
}

/// The outcome of applying a TLS update.
pub struct TlsUpdateOutcome {
    /// The interception switch changed.
    pub global_changed: bool,
    /// Patterns added to or removed from the lists.
    pub affected_patterns: Vec<String>,
    pub action: DisconnectAction,
}

/// The items of `xs` not in `ys`, appended to `out`.
fn push_not_in(out: &mut Vec<String>, xs: &Vec<String>, ys: &Vec<String>)
    ensures
        strings_view(final(out)@) == strings_view(old(out)@) + not_in(strings_view(xs@), strings_view(ys@)),
{
    let ghost xv = strings_view(xs@);
    let ghost base = strings_view(out@);
    let mut i: usize = 0;
    proof {
        assert(xv.take(0) =~= Seq::<Seq<char>>::empty());
        assert(base + Seq::<Seq<char>>::empty() =~= base);
    }
    while i < xs.len()
        invariant
            i <= xs@.len(),
            xv == strings_view(xs@),
            strings_view(out@) == base + not_in(xv.take(i as int), strings_view(ys@)),
        decreases xs@.len() - i,
    {
        proof {
            assert(xv.take(i + 1).drop_last() =~= xv.take(i as int));
            assert(xv.take(i + 1).last() == xs@[i as int]@);
        }
        if !strings_contain(ys, xs[i].as_str()) {
            let ghost before = strings_view(out@);
            out.push(xs[i].clone());
            proof {
                assert(strings_view(out@) =~= before.push(xs@[i as int]@));
                assert(base + not_in(xv.take(i as int), strings_view(ys@)).push(xs@[i as int]@)
                    =~= (base + not_in(xv.take(i as int), strings_view(ys@))).push(xs@[i as int]@));
            }
        }
        i = i + 1;
    }
    proof {
        assert(xv.take(i as int) =~= xv);
    }
}

/// A copy of a list of strings.
fn copy_strings(v: &Vec<String>) -> (r: Vec<String>)
    ensures
        strings_view(r@) == strings_view(v@),
{
    let mut r: Vec<String> = Vec::new();
    let mut i: usize = 0;
    while i < v.len()
        invariant
            i <= v@.len(),
            strings_view(r@) == strings_view(v@).take(i as int),
        decreases v@.len() - i,
    {
        let ghost before = strings_view(r@);
        r.push(v[i].clone());
        proof {
            assert(strings_view(r@) =~= before.push(v@[i as int]@));
            assert(strings_view(v@).take(i + 1) =~= strings_view(v@).take(i as int).push(v@[i as int]@));
        }
        i = i + 1;
    }
    proof {
        assert(strings_view(v@).take(i as int) =~= strings_view(v@));
    }
    r
}

/// Applies a TLS update request to the settings. Returns whether the
/// interception switch changed, the patterns added or removed (exclusions
/// first, then inclusions, each added before removed), and what to
/// disconnect: with disconnection on change enabled, everything when the
/// switch changed, else the connections matching a touched pattern.
pub fn apply_tls_update(config: &mut TlsConfig, request: &UpdateTlsConfigRequest) -> (o: TlsUpdateOutcome)
    ensures
        final(config).model() == tls_after(old(config).model(), request.enable_tls_interception,
            opt_strings(request.intercept_exclude), opt_strings(request.intercept_include),
            request.unsafe_ssl, request.disconnect_on_config_change),
        o.global_changed == (request.enable_tls_interception matches Some(e) && e != old(config).enable_tls_interception),
        strings_view(o.affected_patterns@) == changed_patterns(old(config).model().exclusions, opt_strings(request.intercept_exclude))
            + changed_patterns(old(config).model().inclusions, opt_strings(request.intercept_include)),
        match o.action {
            DisconnectAction::Keep => !final(config).disconnect_on_config_change
                || (!o.global_changed && o.affected_patterns@.len() == 0),
            DisconnectAction::All { intercept_disabled } => final(config).disconnect_on_config_change
                && o.global_changed && intercept_disabled == !final(config).enable_tls_interception,
            DisconnectAction::Patterns(ps) => final(config).disconnect_on_config_change
                && !o.global_changed && o.affected_patterns@.len() > 0 && strings_view(ps@) == strings_view(o.affected_patterns@),
        },
{
    let mut global_changed = false;
    let mut affected: Vec<String> = Vec::new();
    let ghost old_m = config.model();
    if let Some(enable) = request.enable_tls_interception {
        if enable != config.enable_tls_interception {
            global_changed = true;
        }
        config.enable_tls_interception = enable;
    }
    proof {
        assert(strings_view(affected@) =~= Seq::<Seq<char>>::empty());
    }
    if let Some(exclusions) = &request.intercept_exclude {
        push_not_in(&mut affected, exclusions, &config.intercept_exclude);
        push_not_in(&mut affected, &config.intercept_exclude, exclusions);
        config.intercept_exclude = copy_strings(exclusions);
    }
    let ghost mid = strings_view(affected@);
    proof {
        assert(mid =~= changed_patterns(old_m.exclusions, opt_strings(request.intercept_exclude)));
    }
    if let Some(inclusions) = &request.intercept_include {
        push_not_in(&mut affected, inclusions, &config.intercept_include);
        push_not_in(&mut affected, &config.intercept_include, inclusions);
        config.intercept_include = copy_strings(inclusions);
    }
    proof {
        assert(strings_view(affected@) =~= mid + changed_patterns(old_m.inclusions, opt_strings(request.intercept_include)));
    }
    if let Some(u) = request.unsafe_ssl {
        config.unsafe_ssl = u;
    }
    if let Some(d) = request.disconnect_on_config_change {
        config.disconnect_on_config_change = d;
    }
    let action = if config.disconnect_on_config_change {
        if global_changed {
            DisconnectAction::All { intercept_disabled: !config.enable_tls_interception }
        } else if affected.len() > 0 {
            DisconnectAction::Patterns(copy_strings(&affected))
        } else {
            DisconnectAction::Keep
        }
    } else {
        DisconnectAction::Keep
    };
    TlsUpdateOutcome { global_changed, affected_patterns: affected, action }
}

// ---------------------------------------------------------------------------
// Traffic recording limits
// ---------------------------------------------------------------------------

/// Limits of traffic recording.
#[derive(Debug, Clone)]
pub struct TrafficConfig {
    pub max_records: usize,
    pub max_body_memory_size: usize,
    pub max_body_buffer_size: usize,
    pub file_retention_days: u64,
}

impl TrafficConfig {
    /// The limits used when no configuration is loaded: 5000 records, 2 MiB
    /// of bodies in memory, 32 MiB body buffers, files kept 7 days.
    pub fn fallback() -> (c: TrafficConfig)
        ensures
            c.max_records == 5000,
            c.max_body_memory_size == 2 * 1024 * 1024,
            c.max_body_buffer_size == 32 * 1024 * 1024,
            c.file_retention_days == 7,
    {
        TrafficConfig {
            max_records: 5000,
            max_body_memory_size: 2 * 1024 * 1024,
            max_body_buffer_size: 32 * 1024 * 1024,
            file_retention_days: 7,
        }
    }
}

/// The performance settings shown to the administrator.
#[derive(Debug, Clone)]
pub struct PerformanceConfigResponse {
    pub traffic: TrafficConfig,
    pub body_store_stats: Option<BodyStoreStats>,
}

/// A change of recording limits; absent fields stay.
pub struct UpdateTrafficConfigRequest {
    pub max_records: Option<usize>,
    pub max_body_memory_size: Option<usize>,
    pub max_body_buffer_size: Option<usize>,
    pub file_retention_days: Option<u64>,
}

/// Longest time body files may be kept, in days.
pub const MAX_FILE_RETENTION_DAYS: u64 = 7;

/// Checks a limits change: the file retention may not exceed seven days.
/// `Err` carries the message for the administrator.
pub fn validate_traffic_update(request: &UpdateTrafficConfigRequest) -> (r: Result<(), &'static str>)
    ensures
        r is Err <==> (request.file_retention_days matches Some(d) && d > MAX_FILE_RETENTION_DAYS),
        r matches Err(m) ==> m@ == "file_retention_days cannot exceed 7 days"@,
{
    if let Some(days) = request.file_retention_days {
        if days > MAX_FILE_RETENTION_DAYS {
            return Err("file_retention_days cannot exceed 7 days");
        }
    }
    Ok(())
}

/// Applies a limits change to the limits.
pub fn apply_traffic_update(config: &mut TrafficConfig, request: &UpdateTrafficConfigRequest)
    ensures
        final(config).max_records == match request.max_records { Some(v) => v, None => old(config).max_records },
        final(config).max_body_memory_size == match request.max_body_memory_size { Some(v) => v, None => old(config).max_body_memory_size },
        final(config).max_body_buffer_size == match request.max_body_buffer_size { Some(v) => v, None => old(config).max_body_buffer_size },
        final(config).file_retention_days == match request.file_retention_days { Some(v) => v, None => old(config).file_retention_days },
{
    if let Some(v) = request.max_records {
        config.max_records = v;
    }
    if let Some(v) = request.max_body_memory_size {
        config.max_body_memory_size = v;
    }
    if let Some(v) = request.max_body_buffer_size {
        config.max_body_buffer_size = v;
    }
    if let Some(v) = request.file_retention_days {
        config.file_retention_days = v;
    }
}

/// The body store change that a limits change implies.
pub fn body_store_update(request: &UpdateTrafficConfigRequest) -> (u: BodyStoreConfigUpdate)
    ensures
        u.max_memory_size == request.max_body_memory_size,
        u.retention_days == request.file_retention_days,
        u.stream_flush_bytes is None,
        u.stream_flush_interval_ms is None,
{
    BodyStoreConfigUpdate {
        max_memory_size: request.max_body_memory_size,
        retention_days: request.file_retention_days,
        stream_flush_bytes: None,
        stream_flush_interval_ms: None,
    }
}

// ---------------------------------------------------------------------------
// Laws
// ---------------------------------------------------------------------------

/// An update that names no field leaves the TLS settings as they were.
pub proof fn lemma_empty_tls_update_keeps(m: TlsModel)
    ensures
        tls_after(m, None, None, None, None, None) == m,
{
}

/// Setting a pattern list to what it was touches no pattern.
pub proof fn lemma_same_list_touches_nothing(old: Seq<Seq<char>>)
    ensures
        changed_patterns(old, Some(old)).len() == 0,
{
    lemma_not_in_self(old, old);
}

proof fn lemma_not_in_self(xs: Seq<Seq<char>>, ys: Seq<Seq<char>>)
    requires
        forall|k: int| 0 <= k < xs.len() ==> ys.contains(#[trigger] xs[k]),
    ensures
        not_in(xs, ys).len() == 0,
    decreases xs.len(),
{
    if xs.len() > 0 {
        assert(ys.contains(xs[xs.len() - 1]));
        lemma_not_in_self(xs.drop_last(), ys);
    }
}

} // verus!
