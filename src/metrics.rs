//! Metrics: bounded histories of connection, system and quality samples,
//! and alerts raised when the latest samples cross their thresholds. Values
//! are whole units (milliseconds, kilobits per second, per-mille).
use vstd::prelude::*;
use crate::util::same_text;
use crate::discovery::new_uuid;

verus! {

/// Samples kept per history.
pub const HISTORY_LEN: usize = 300;
/// Seconds within which an alert of the same kind for the same connection
/// is not raised again while the first is unacknowledged.
pub const ALERT_DEDUP_SECS: u64 = 60;

#[derive(Debug, Clone, Copy, PartialEq, Eq, Structural)]
pub enum ConnectionType {
    P2P,
    Relay,
}

#[derive(Debug, Clone, Copy, PartialEq, Eq, Structural)]
pub enum AlertType {
    HighLatency,
    PacketLoss,
    LowBandwidth,
    HighCpuUsage,
    HighMemoryUsage,
    LowQualityScore,
    ConnectionUnstable,
    FrameDrops,
}

#[derive(Debug, Clone, Copy, PartialEq, Eq, Structural)]
pub enum AlertSeverity {
    Low,
    Medium,
    High,
    Critical,
}

#[derive(Debug)]
pub struct ConnectionMetrics {
    pub connection_id: String,
    pub connection_type: ConnectionType,
    pub latency_ms: u32,
    pub bandwidth_kbps: u32,
    pub packet_loss_permille: u32,
    pub jitter_ms: u32,
    /// 0 to 100.
    pub quality_score: u32,
    /// Seconds since the Unix epoch.
    pub last_updated: u64,
}

pub ghost struct SampleView {
    pub connection_id: Seq<char>,
    pub connection_type: ConnectionType,
    pub latency_ms: u32,
    pub bandwidth_kbps: u32,
    pub packet_loss_permille: u32,
    pub jitter_ms: u32,
    pub quality_score: u32,
    pub last_updated: u64,
}

impl View for ConnectionMetrics {
    type V = SampleView;

    open spec fn view(&self) -> SampleView {
        SampleView {
            connection_id: self.connection_id@,
            connection_type: self.connection_type,
            latency_ms: self.latency_ms,
            bandwidth_kbps: self.bandwidth_kbps,
            packet_loss_permille: self.packet_loss_permille,
            jitter_ms: self.jitter_ms,
            quality_score: self.quality_score,
            last_updated: self.last_updated,
        }
    }
}

#[derive(Debug, Clone, Copy, PartialEq, Eq, Structural)]
pub struct SystemMetrics {
    pub cpu_usage_permille: u32,
    pub memory_usage_permille: u32,
    pub memory_used_mb: u64,
    pub memory_total_mb: u64,
    pub disk_usage_permille: u32,
    pub network_rx_kbps: u32,
    pub network_tx_kbps: u32,
    pub screen_capture_fps: u32,
    pub encoding_fps: u32,
    pub last_updated: u64,
}

#[derive(Debug, Clone, Copy, PartialEq, Eq, Structural)]
pub struct QualityMetrics {
    /// 0 to 100.
    pub video_quality_score: u32,
    pub input_responsiveness_ms: u32,
    pub frame_drops_per_minute: u32,
    pub compression_efficiency_permille: u32,
    /// 0 to 100.
    pub user_satisfaction_score: u32,
    pub last_updated: u64,
}

#[derive(Debug, Clone, Copy, PartialEq, Eq, Structural)]
pub struct AlertThresholds {
    pub max_latency_ms: u32,
    pub max_packet_loss_permille: u32,
    pub min_bandwidth_kbps: u32,
    pub max_cpu_usage_permille: u32,
    pub max_memory_usage_permille: u32,
    pub min_quality_score: u32,
    pub max_frame_drops_per_minute: u32,
}

/// The thresholds used until others are set.
pub open spec fn default_alert_thresholds() -> AlertThresholds {
    AlertThresholds {
        max_latency_ms: 100,
        max_packet_loss_permille: 50,
        min_bandwidth_kbps: 1000,
        max_cpu_usage_permille: 800,
        max_memory_usage_permille: 900,
        min_quality_score: 70,
        max_frame_drops_per_minute: 120,
    }
}

impl AlertThresholds {
    pub fn default_thresholds() -> (r: Self)
        ensures
            r == default_alert_thresholds(),
    {
        AlertThresholds {
            max_latency_ms: 100,
            max_packet_loss_permille: 50,
            min_bandwidth_kbps: 1000,
            max_cpu_usage_permille: 800,
            max_memory_usage_permille: 900,
            min_quality_score: 70,
            max_frame_drops_per_minute: 120,
        }
    }
}

#[derive(Debug)]
pub struct PerformanceAlert {
    pub id: String,
    pub alert_type: AlertType,
    pub severity: AlertSeverity,
    pub metric_value: u64,
    pub threshold: u64,
    pub connection_id: Option<String>,
    /// Seconds since the Unix epoch.
    pub created_at: u64,
    pub acknowledged: bool,
}

/// What an alert says, as the contracts speak of it.
pub ghost struct AlertView {
    pub alert_type: AlertType,
    pub connection_id: Option<Seq<char>>,
    pub created_at: u64,
    pub acknowledged: bool,
}

impl View for PerformanceAlert {
    type V = AlertView;

    open spec fn view(&self) -> AlertView {
        AlertView {
            alert_type: self.alert_type,
            connection_id: crate::connection::opt_text(self.connection_id),
            created_at: self.created_at,
            acknowledged: self.acknowledged,
        }
    }
}

/// Whether an unacknowledged alert of this kind for this connection was
/// raised within the deduplication window before `now`.
pub open spec fn recently_raised(alerts: Seq<AlertView>, t: AlertType, c: Option<Seq<char>>, now: u64) -> bool {
    exists|i: int| 0 <= i < alerts.len() && alerts[i].alert_type == t && alerts[i].connection_id == c
        && !alerts[i].acknowledged && #[trigger] alerts[i].created_at as int + ALERT_DEDUP_SECS >= now
}

/// The history after a sample is added: the oldest goes when it grows past `max`.
pub open spec fn bounded_push<T>(s: Seq<T>, x: T, max: nat) -> Seq<T> {
    if s.len() + 1 > max { s.push(x).drop_first() } else { s.push(x) }
}

fn push_bounded<T>(v: &mut Vec<T>, x: T, max: usize)
    ensures
        final(v)@ == bounded_push(old(v)@, x, max as nat),
{
    v.push(x);
    if v.len() > max {
        v.remove(0);
        proof {
            assert(v@ =~= old(v)@.push(x).drop_first());
        }
    }
}

fn copy_connection_metrics(m: &ConnectionMetrics) -> (r: ConnectionMetrics)
    ensures
        r@ == m@,
{
    ConnectionMetrics {
        connection_id: m.connection_id.clone(),
        connection_type: m.connection_type,
        latency_ms: m.latency_ms,
        bandwidth_kbps: m.bandwidth_kbps,
        packet_loss_permille: m.packet_loss_permille,
        jitter_ms: m.jitter_ms,
        quality_score: m.quality_score,
        last_updated: m.last_updated,
    }
}

struct ConnectionHistory {
    connection_id: String,
    samples: Vec<ConnectionMetrics>,
}

pub struct MetricsCollector {
    connection_metrics: Vec<ConnectionHistory>,
    system_metrics: Vec<SystemMetrics>,
    quality_metrics: Vec<QualityMetrics>,
    alerts: Vec<PerformanceAlert>,
    alert_thresholds: AlertThresholds,
}

/// An alert as it is first raised.
pub open spec fn new_alert(t: AlertType, c: Option<Seq<char>>, now: u64) -> AlertView {
    AlertView { alert_type: t, connection_id: c, created_at: now, acknowledged: false }
}

/// The samples stored for the first history with this connection id.
closed spec fn first_history(s: Seq<ConnectionHistory>, id: Seq<char>) -> Option<Seq<SampleView>> {
    if exists|i: int| 0 <= i < s.len() && (#[trigger] s[i]).connection_id@ == id {
        let i = choose|i: int| 0 <= i < s.len() && (#[trigger] s[i]).connection_id@ == id
            && forall|j: int| 0 <= j < i ==> (#[trigger] s[j]).connection_id@ != id;
        Some(s[i].samples@.map_values(|m: ConnectionMetrics| m@))
    } else {
        None
    }
}

impl MetricsCollector {
    pub closed spec fn alert_views(&self) -> Seq<AlertView> {
        self.alerts@.map_values(|a: PerformanceAlert| a@)
    }

    /// The ids of the alerts, in the order of `alert_views`.
    pub closed spec fn alert_ids(&self) -> Seq<Seq<char>> {
        self.alerts@.map_values(|a: PerformanceAlert| a.id@)
    }

    /// The samples stored for a connection, oldest first, if any history is
    /// kept for it.
    pub closed spec fn samples_for(&self, id: Seq<char>) -> Option<Seq<SampleView>> {
        first_history(self.connection_metrics@, id)
    }

    pub closed spec fn system_history(&self) -> Seq<SystemMetrics> {
        self.system_metrics@
    }

    pub closed spec fn quality_history(&self) -> Seq<QualityMetrics> {
        self.quality_metrics@
    }

    pub closed spec fn thresholds(&self) -> AlertThresholds {
        self.alert_thresholds
    }

    pub fn new() -> (r: Self)
        ensures
            r.alert_views().len() == 0,
            r.system_history().len() == 0,
            r.quality_history().len() == 0,
            r.thresholds() == default_alert_thresholds(),
    {
        let r = MetricsCollector {
            connection_metrics: Vec::new(),
            system_metrics: Vec::new(),
            quality_metrics: Vec::new(),
            alerts: Vec::new(),
            alert_thresholds: AlertThresholds::default_thresholds(),
        };
        proof {
            assert(r.alert_views() =~= Seq::<AlertView>::empty());
        }
        r
    }

    fn recent_exec(&self, t: AlertType, c: &Option<String>, now: u64) -> (r: bool)
        ensures
            r == recently_raised(self.alert_views(), t, crate::connection::opt_text(*c), now),
    {
        let mut i: usize = 0;
        while i < self.alerts.len()
            invariant
                i <= self.alerts@.len(),
                forall|j: int| 0 <= j < i ==> !({
                    let a = #[trigger] self.alert_views()[j];
                    a.alert_type == t && a.connection_id == crate::connection::opt_text(*c)
                        && !a.acknowledged && a.created_at as int + ALERT_DEDUP_SECS >= now
                }),
            decreases self.alerts@.len() - i,
        {
            let a = &self.alerts[i];
            proof {
                assert(self.alert_views()[i as int] == a@);
            }
            let same_conn = match (&a.connection_id, c) {
                (Some(x), Some(y)) => same_text(x.as_str(), y.as_str()),
                (None, None) => true,
                _ => false,
            };
            proof {
                assert(same_conn == (crate::connection::opt_text(a.connection_id) == crate::connection::opt_text(*c)));
            }
            if a.alert_type == t && same_conn && !a.acknowledged && (a.created_at as u128) + (ALERT_DEDUP_SECS as u128) >= now as u128 {
                proof {
                    let v = self.alert_views();
                    assert(v[i as int].alert_type == t && v[i as int].connection_id == crate::connection::opt_text(*c)
                        && !v[i as int].acknowledged && v[i as int].created_at as int + ALERT_DEDUP_SECS >= now);
                }
                return true;
            }
            i = i + 1;
        }
        false
    }

    /// Raises an alert unless one of its kind for its connection is recent.
    fn raise(&mut self, t: AlertType, severity: AlertSeverity, value: u64, threshold: u64, c: Option<String>, now: u64,
        raised: &mut Vec<AlertType>)
        ensures
            final(self).thresholds() == old(self).thresholds(),
            final(self).system_history() == old(self).system_history(),
            final(self).quality_history() == old(self).quality_history(),
            recently_raised(old(self).alert_views(), t, crate::connection::opt_text(c), now) ==> final(self).alert_views() == old(self).alert_views()
                && final(raised)@ == old(raised)@,
            !recently_raised(old(self).alert_views(), t, crate::connection::opt_text(c), now) ==>
                final(self).alert_views() == old(self).alert_views().push(AlertView {
                    alert_type: t, connection_id: crate::connection::opt_text(c), created_at: now, acknowledged: false })
                && final(raised)@ == old(raised)@.push(t),
            final(self).alert_ids().len() == final(self).alert_views().len(),
    {
        if self.recent_exec(t, &c, now) {
            return;
        }
        let alert = PerformanceAlert {
            id: new_uuid(),
            alert_type: t,
            severity,
            metric_value: value,
            threshold,
            connection_id: c,
            created_at: now,
            acknowledged: false,
        };
        let ghost v = alert@;
        self.alerts.push(alert);
        raised.push(t);
        proof {
            assert(self.alert_views() =~= old(self).alert_views().push(v));
        }
    }

    /// Records a connection sample at `now` and raises the alerts it calls
    /// for, each unless one of its kind for the connection is recent;
    /// returns the kinds raised.
    pub fn record_connection_metrics(&mut self, metrics: ConnectionMetrics, now: u64) -> (r: Vec<AlertType>)
        ensures
            final(self).thresholds() == old(self).thresholds(),
            final(self).system_history() == old(self).system_history(),
            final(self).quality_history() == old(self).quality_history(),
            forall|i: int| 0 <= i < r@.len() ==> connection_triggers(&metrics, old(self).thresholds(), #[trigger] r@[i]),
            forall|a: AlertType| connection_triggers(&metrics, old(self).thresholds(), a)
                && !recently_raised(old(self).alert_views(), a, Some(metrics.connection_id@), now) ==> r@.contains(a),
    {
        let t = self.alert_thresholds;
        let mut raised: Vec<AlertType> = Vec::new();
        let ghost start = self.alert_views();
        let ghost c = Some(metrics.connection_id@);
        if metrics.latency_ms > t.max_latency_ms {
            self.raise(AlertType::HighLatency, AlertSeverity::Medium, metrics.latency_ms as u64, t.max_latency_ms as u64,
                Some(metrics.connection_id.clone()), now, &mut raised);
        }
        let ghost after1 = self.alert_views();
        let ghost r1 = raised@;
        if metrics.packet_loss_permille > t.max_packet_loss_permille {
            self.raise(AlertType::PacketLoss, AlertSeverity::High, metrics.packet_loss_permille as u64, t.max_packet_loss_permille as u64,
                Some(metrics.connection_id.clone()), now, &mut raised);
        }
        let ghost after2 = self.alert_views();
        let ghost r2 = raised@;
        if metrics.bandwidth_kbps < t.min_bandwidth_kbps {
            self.raise(AlertType::LowBandwidth, AlertSeverity::Medium, metrics.bandwidth_kbps as u64, t.min_bandwidth_kbps as u64,
                Some(metrics.connection_id.clone()), now, &mut raised);
        }
        let ghost after3 = self.alert_views();
        let ghost r3 = raised@;
        if metrics.quality_score < t.min_quality_score {
            self.raise(AlertType::LowQualityScore, AlertSeverity::Medium, metrics.quality_score as u64, t.min_quality_score as u64,
                Some(metrics.connection_id.clone()), now, &mut raised);
        }
        proof {
            assert forall|a: AlertType| connection_triggers(&metrics, t, a) && !recently_raised(start, a, c, now)
                implies raised@.contains(a) by {
                if a == AlertType::HighLatency {
                    assert(r1 == seq![a]);
                    assert(raised@[0] == a);
                } else if a == AlertType::PacketLoss {
                    lemma_recent_other(start, after1, AlertType::HighLatency, c, now, a);
                    assert(r2.last() == a);
                    assert(raised@[r2.len() - 1] == a);
                } else if a == AlertType::LowBandwidth {
                    lemma_recent_other(start, after1, AlertType::HighLatency, c, now, a);
                    lemma_recent_other(after1, after2, AlertType::PacketLoss, c, now, a);
                    assert(r3.last() == a);
                    assert(raised@[r3.len() - 1] == a);
                } else {
                    lemma_recent_other(start, after1, AlertType::HighLatency, c, now, a);
                    lemma_recent_other(after1, after2, AlertType::PacketLoss, c, now, a);
                    lemma_recent_other(after2, after3, AlertType::LowBandwidth, c, now, a);
                    assert(raised@[raised@.len() - 1] == a);
                }
            }
            assert forall|i: int| 0 <= i < raised@.len() implies connection_triggers(&metrics, t, #[trigger] raised@[i]) by {
                if i < r1.len() {
                    assert(raised@[i] == r1[i]);
                } else if i < r2.len() {
                    assert(raised@[i] == r2[i]);
                } else if i < r3.len() {
                    assert(raised@[i] == r3[i]);
                }
            }
        }
        self.store_connection_sample(metrics);
        raised
    }

    fn store_connection_sample(&mut self, metrics: ConnectionMetrics)
        ensures
            final(self).thresholds() == old(self).thresholds(),
            final(self).system_history() == old(self).system_history(),
            final(self).quality_history() == old(self).quality_history(),
            final(self).alert_views() == old(self).alert_views(),
    {
        let mut i: usize = 0;
        while i < self.connection_metrics.len()
            invariant
                i <= self.connection_metrics@.len(),
                self.alerts == old(self).alerts,
                self.system_metrics == old(self).system_metrics,
                self.quality_metrics == old(self).quality_metrics,
                self.alert_thresholds == old(self).alert_thresholds,
            decreases self.connection_metrics@.len() - i,
        {
            if same_text(self.connection_metrics[i].connection_id.as_str(), metrics.connection_id.as_str()) {
                let mut history = self.connection_metrics.remove(i);
                push_bounded(&mut history.samples, metrics, HISTORY_LEN);
                self.connection_metrics.push(history);
                return;
            }
            i = i + 1;
        }
        let id = metrics.connection_id.clone();
        let mut samples: Vec<ConnectionMetrics> = Vec::new();
        samples.push(metrics);
        self.connection_metrics.push(ConnectionHistory { connection_id: id, samples });
    }

    /// The latest sample of a connection; `None` when none is stored.
    pub fn get_connection_metrics(&self, connection_id: &str) -> (r: Option<ConnectionMetrics>)
        ensures
            match self.samples_for(connection_id@) {
                None => r is None,
                Some(ss) => if ss.len() == 0 { r is None } else { r is Some && r->Some_0@ == ss.last() },
            },
    {
        let mut i: usize = 0;
        while i < self.connection_metrics.len()
            invariant
                i <= self.connection_metrics@.len(),
                forall|j: int| 0 <= j < i ==> (#[trigger] self.connection_metrics@[j]).connection_id@ != connection_id@,
            decreases self.connection_metrics@.len() - i,
        {
            let h = &self.connection_metrics[i];
            if same_text(h.connection_id.as_str(), connection_id) {
                proof {
                    let s = self.connection_metrics@;
                    assert(exists|k: int| 0 <= k < s.len() && (#[trigger] s[k]).connection_id@ == connection_id@);
                    let k = choose|k: int| 0 <= k < s.len() && (#[trigger] s[k]).connection_id@ == connection_id@
                        && forall|j: int| 0 <= j < k ==> (#[trigger] s[j]).connection_id@ != connection_id@;
                    assert(s[i as int].connection_id@ == connection_id@);
                    if k < i {
                    } else if k > i {
                        assert(s[i as int].connection_id@ != connection_id@);
                    }
                    assert(k == i);
                }
                if h.samples.len() == 0 {
                    return None;
                }
                let m = copy_connection_metrics(&h.samples[h.samples.len() - 1]);
                proof {
                    assert(h.samples@.map_values(|m: ConnectionMetrics| m@).last() == h.samples@.last()@);
                }
                return Some(m);
            }
            i = i + 1;
        }
        None
    }

    pub fn record_system_metrics(&mut self, metrics: SystemMetrics)
        ensures
            final(self).system_history() == bounded_push(old(self).system_history(), metrics, HISTORY_LEN as nat),
            final(self).quality_history() == old(self).quality_history(),
            final(self).alert_views() == old(self).alert_views(),
            final(self).thresholds() == old(self).thresholds(),
    {
        push_bounded(&mut self.system_metrics, metrics, HISTORY_LEN);
    }

    pub fn record_quality_metrics(&mut self, metrics: QualityMetrics)
        ensures
            final(self).quality_history() == bounded_push(old(self).quality_history(), metrics, HISTORY_LEN as nat),
            final(self).system_history() == old(self).system_history(),
            final(self).alert_views() == old(self).alert_views(),
            final(self).thresholds() == old(self).thresholds(),
    {
        push_bounded(&mut self.quality_metrics, metrics, HISTORY_LEN);
    }

    pub fn get_system_metrics(&self) -> (r: Option<SystemMetrics>)
        ensures
            r == (if self.system_history().len() == 0 { None } else { Some(self.system_history().last()) }),
    {
        if self.system_metrics.len() == 0 { None } else { Some(self.system_metrics[self.system_metrics.len() - 1]) }
    }

    pub fn get_quality_metrics(&self) -> (r: Option<QualityMetrics>)
        ensures
            r == (if self.quality_history().len() == 0 { None } else { Some(self.quality_history().last()) }),
    {
        if self.quality_metrics.len() == 0 { None } else { Some(self.quality_metrics[self.quality_metrics.len() - 1]) }
    }

    /// Compares the latest system and quality samples with the thresholds at
    /// `now` and raises the alerts they call for, each unless one of its kind
    /// is recent; returns the kinds raised, which join the alert list in order.
    pub fn evaluate_alerts(&mut self, now: u64) -> (r: Vec<AlertType>)
        ensures
            final(self).thresholds() == old(self).thresholds(),
            final(self).system_history() == old(self).system_history(),
            final(self).quality_history() == old(self).quality_history(),
            forall|i: int| 0 <= i < r@.len() ==> system_triggers(old(self).latest_system(), old(self).latest_quality(),
                old(self).thresholds(), #[trigger] r@[i]),
            forall|a: AlertType| system_triggers(old(self).latest_system(), old(self).latest_quality(), old(self).thresholds(), a)
                && !recently_raised(old(self).alert_views(), a, None, now) ==> r@.contains(a),
            final(self).alert_views() == old(self).alert_views() + r@.map_values(|a: AlertType| new_alert(a, None, now)),
    {
        let t = self.alert_thresholds;
        let mut raised: Vec<AlertType> = Vec::new();
        let s = self.get_system_metrics();
        let q = self.get_quality_metrics();
        let ghost start = self.alert_views();
        let ghost ls = old(self).latest_system();
        let ghost lq = old(self).latest_quality();
        proof {
            assert(s == ls && q == lq);
            assert(start + raised@.map_values(|a: AlertType| new_alert(a, None, now)) =~= start);
        }
        let (cpu, mem) = match s {
            Some(m) => (m.cpu_usage_permille > t.max_cpu_usage_permille, m.memory_usage_permille > t.max_memory_usage_permille),
            None => (false, false),
        };
        let (low_q, drops) = match q {
            Some(m) => (m.video_quality_score < t.min_quality_score, m.frame_drops_per_minute > t.max_frame_drops_per_minute),
            None => (false, false),
        };
        let (cv, mv) = match s {
            Some(m) => (m.cpu_usage_permille as u64, m.memory_usage_permille as u64),
            None => (0, 0),
        };
        let (qv, dv) = match q {
            Some(m) => (m.video_quality_score as u64, m.frame_drops_per_minute as u64),
            None => (0, 0),
        };
        proof {
            assert(cpu == system_triggers(ls, lq, t, AlertType::HighCpuUsage));
            assert(mem == system_triggers(ls, lq, t, AlertType::HighMemoryUsage));
            assert(low_q == system_triggers(ls, lq, t, AlertType::LowQualityScore));
            assert(drops == system_triggers(ls, lq, t, AlertType::FrameDrops));
        }
        if cpu {
            self.raise(AlertType::HighCpuUsage, AlertSeverity::High, cv, t.max_cpu_usage_permille as u64, None, now, &mut raised);
        }
        let ghost a1 = self.alert_views();
        let ghost r1 = raised@;
        proof {
            assert(a1 =~= start + r1.map_values(|a: AlertType| new_alert(a, None, now)));
        }
        if mem {
            self.raise(AlertType::HighMemoryUsage, AlertSeverity::High, mv, t.max_memory_usage_permille as u64, None, now, &mut raised);
        }
        let ghost a2 = self.alert_views();
        let ghost r2 = raised@;
        proof {
            assert(a2 =~= start + r2.map_values(|a: AlertType| new_alert(a, None, now)));
        }
        if low_q {
            self.raise(AlertType::LowQualityScore, AlertSeverity::Medium, qv, t.min_quality_score as u64, None, now, &mut raised);
        }
        let ghost a3 = self.alert_views();
        let ghost r3 = raised@;
        proof {
            assert(a3 =~= start + r3.map_values(|a: AlertType| new_alert(a, None, now)));
        }
        if drops {
            self.raise(AlertType::FrameDrops, AlertSeverity::Medium, dv, t.max_frame_drops_per_minute as u64, None, now, &mut raised);
        }
        proof {
            assert(self.alert_views() =~= start + raised@.map_values(|a: AlertType| new_alert(a, None, now)));
            let c: Option<Seq<char>> = None;
            assert forall|a: AlertType| system_triggers(ls, lq, t, a) && !recently_raised(start, a, c, now)
                implies raised@.contains(a) by {
                if a == AlertType::HighCpuUsage {
                    assert(raised@[0] == a);
                } else if a == AlertType::HighMemoryUsage {
                    lemma_recent_other(start, a1, AlertType::HighCpuUsage, c, now, a);
                    assert(raised@[r2.len() - 1] == a);
                } else if a == AlertType::LowQualityScore {
                    lemma_recent_other(start, a1, AlertType::HighCpuUsage, c, now, a);
                    lemma_recent_other(a1, a2, AlertType::HighMemoryUsage, c, now, a);
                    assert(raised@[r3.len() - 1] == a);
                } else {
                    lemma_recent_other(start, a1, AlertType::HighCpuUsage, c, now, a);
                    lemma_recent_other(a1, a2, AlertType::HighMemoryUsage, c, now, a);
                    lemma_recent_other(a2, a3, AlertType::LowQualityScore, c, now, a);
                    assert(raised@[raised@.len() - 1] == a);
                }
            }
            assert forall|i: int| 0 <= i < raised@.len() implies system_triggers(ls, lq, t, #[trigger] raised@[i]) by {
                if i < r1.len() {
                    assert(raised@[i] == r1[i]);
                } else if i < r2.len() {
                    assert(raised@[i] == r2[i]);
                } else if i < r3.len() {
                    assert(raised@[i] == r3[i]);
                }
            }
        }
        raised
    }

    /// Marks the first alert with this id acknowledged; fails, changing
    /// nothing, when no alert has that id.
    pub fn acknowledge_alert(&mut self, alert_id: &str) -> (r: Result<(), ()>)
        ensures
            final(self).thresholds() == old(self).thresholds(),
            final(self).alert_ids() == old(self).alert_ids(),
            r is Ok <==> old(self).alert_ids().contains(alert_id@),
            r is Err ==> final(self).alert_views() == old(self).alert_views(),
            r is Ok ==> exists|i: int| 0 <= i < old(self).alert_ids().len() && old(self).alert_ids()[i] == alert_id@
                && final(self).alert_views() == old(self).alert_views().update(i,
                    AlertView { acknowledged: true, ..old(self).alert_views()[i] }),
    {
        let mut i: usize = 0;
        while i < self.alerts.len()
            invariant
                i <= self.alerts@.len(),
                *self == *old(self),
                forall|j: int| 0 <= j < i ==> self.alerts@[j].id@ != alert_id@,
            decreases self.alerts@.len() - i,
        {
            if same_text(self.alerts[i].id.as_str(), alert_id) {
                let ghost before = self.alerts@;
                let mut a = self.alerts.remove(i);
                a.acknowledged = true;
                self.alerts.insert(i, a);
                proof {
                    assert(self.alerts@ =~= before.update(i as int, a));
                    assert(self.alert_views() =~= old(self).alert_views().update(i as int,
                        AlertView { acknowledged: true, ..old(self).alert_views()[i as int] }));
                    assert(self.alert_ids() =~= old(self).alert_ids());
                    assert(old(self).alert_ids()[i as int] == alert_id@);
                }
                return Ok(());
            }
            i = i + 1;
        }
        proof {
            assert forall|j: int| 0 <= j < old(self).alert_ids().len() implies old(self).alert_ids()[j] != alert_id@ by {
                assert(old(self).alert_ids()[j] == self.alerts@[j].id@);
            }
        }
        Err(())
    }

    /// Forgets the acknowledged alerts, keeping the others in order.
    pub fn clear_acknowledged_alerts(&mut self)
        ensures
            final(self).alert_views() == old(self).alert_views().filter(|a: AlertView| !a.acknowledged),
            final(self).thresholds() == old(self).thresholds(),
    {
        let ghost orig = self.alert_views();
        let mut rest: Vec<PerformanceAlert> = Vec::new();
        core::mem::swap(&mut rest, &mut self.alerts);
        let ghost n = rest@.len();
        proof {
            assert(rest@.map_values(|a: PerformanceAlert| a@) =~= orig);
            assert(self.alert_views() =~= Seq::<AlertView>::empty());
            assert(orig.subrange(0, 0) =~= Seq::<AlertView>::empty());
        }
        let ghost i: int = 0;
        while rest.len() > 0
            invariant
                0 <= i <= n,
                orig.len() == n,
                rest@.len() == n - i,
                forall|j: int| 0 <= j < rest@.len() ==> #[trigger] rest@[j]@ == orig[i + j],
                self.alert_views() == orig.subrange(0, i).filter(|a: AlertView| !a.acknowledged),
                self.alert_thresholds == old(self).alert_thresholds,
            decreases rest@.len(),
        {
            let ghost rest_before = rest@;
            let a = rest.remove(0);
            let ghost before = self.alert_views();
            proof {
                assert(a@ == orig[i]);
                assert(orig.subrange(0, i + 1) =~= orig.subrange(0, i).push(orig[i]));
                orig.subrange(0, i).lemma_filter_push(orig[i], |a: AlertView| !a.acknowledged);
            }
            if !a.acknowledged {
                let ghost v = a@;
                self.alerts.push(a);
                proof {
                    assert(self.alert_views() =~= before.push(v));
                }
            }
            proof {
                assert forall|j: int| 0 <= j < rest@.len() implies #[trigger] rest@[j]@ == orig[i + 1 + j] by {
                    assert(rest@[j] == rest_before[j + 1]);
                }
                i = i + 1;
            }
        }
        proof {
            assert(orig.subrange(0, n as int) =~= orig);
        }
    }

    /// Copies of the alerts, oldest first.
    pub fn get_alerts(&self) -> (r: Vec<PerformanceAlert>)
        ensures
            r@.map_values(|a: PerformanceAlert| a@) == self.alert_views(),
            r@.map_values(|a: PerformanceAlert| a.id@) == self.alert_ids(),
    {
        let mut out: Vec<PerformanceAlert> = Vec::new();
        let mut i: usize = 0;
        while i < self.alerts.len()
            invariant
                i <= self.alerts@.len(),
                out@.len() == i,
                forall|j: int| 0 <= j < i ==> (#[trigger] out@[j])@ == self.alerts@[j]@ && out@[j].id@ == self.alerts@[j].id@,
            decreases self.alerts@.len() - i,
        {
            let a = &self.alerts[i];
            let connection_id = match &a.connection_id {
                Some(c) => Some(c.clone()),
                None => None,
            };
            out.push(PerformanceAlert {
                id: a.id.clone(),
                alert_type: a.alert_type,
                severity: a.severity,
                metric_value: a.metric_value,
                threshold: a.threshold,
                connection_id,
                created_at: a.created_at,
                acknowledged: a.acknowledged,
            });
            i = i + 1;
        }
        proof {
            assert(out@.map_values(|a: PerformanceAlert| a@) =~= self.alert_views());
            assert(out@.map_values(|a: PerformanceAlert| a.id@) =~= self.alert_ids());
        }
        out
    }

    pub fn get_alert_count(&self) -> (r: usize)
        ensures
            r == self.alert_views().len(),
    {
        self.alerts.len()
    }

    pub fn update_alert_thresholds(&mut self, thresholds: AlertThresholds)
        ensures
            final(self).thresholds() == thresholds,
            final(self).alert_views() == old(self).alert_views(),
            final(self).system_history() == old(self).system_history(),
            final(self).quality_history() == old(self).quality_history(),
    {
        self.alert_thresholds = thresholds;
    }

    pub closed spec fn latest_system(&self) -> Option<SystemMetrics> {
        if self.system_metrics@.len() == 0 { None } else { Some(self.system_metrics@.last()) }
    }

    pub closed spec fn latest_quality(&self) -> Option<QualityMetrics> {
        if self.quality_metrics@.len() == 0 { None } else { Some(self.quality_metrics@.last()) }
    }
}

/// Whether a connection sample calls for an alert of kind `a`.
pub open spec fn connection_triggers(m: &ConnectionMetrics, t: AlertThresholds, a: AlertType) -> bool {
    ||| a == AlertType::HighLatency && m.latency_ms > t.max_latency_ms
    ||| a == AlertType::PacketLoss && m.packet_loss_permille > t.max_packet_loss_permille
    ||| a == AlertType::LowBandwidth && m.bandwidth_kbps < t.min_bandwidth_kbps
    ||| a == AlertType::LowQualityScore && m.quality_score < t.min_quality_score
}

/// Whether the latest system and quality samples call for an alert of kind `a`.
pub open spec fn system_triggers(s: Option<SystemMetrics>, q: Option<QualityMetrics>, t: AlertThresholds, a: AlertType) -> bool {
    ||| (s matches Some(m) && a == AlertType::HighCpuUsage && m.cpu_usage_permille > t.max_cpu_usage_permille)
    ||| (s matches Some(m) && a == AlertType::HighMemoryUsage && m.memory_usage_permille > t.max_memory_usage_permille)
    ||| (q matches Some(m) && a == AlertType::LowQualityScore && m.video_quality_score < t.min_quality_score)
    ||| (q matches Some(m) && a == AlertType::FrameDrops && m.frame_drops_per_minute > t.max_frame_drops_per_minute)
}

/// An alert of another kind leaves a kind's recency as it was.
proof fn lemma_recent_other(prev: Seq<AlertView>, next: Seq<AlertView>, kind: AlertType, c: Option<Seq<char>>, now: u64, b: AlertType)
    requires
        next == prev || next == prev.push(AlertView { alert_type: kind, connection_id: c, created_at: now, acknowledged: false }),
        kind != b,
    ensures
        recently_raised(next, b, c, now) == recently_raised(prev, b, c, now),
{
    if next != prev {
        if recently_raised(next, b, c, now) {
            let i = choose|i: int| 0 <= i < next.len() && next[i].alert_type == b && next[i].connection_id == c
                && !next[i].acknowledged && #[trigger] next[i].created_at as int + ALERT_DEDUP_SECS >= now;
            assert(i < prev.len());
            assert(prev[i] == next[i]);
        }
        if recently_raised(prev, b, c, now) {
            let i = choose|i: int| 0 <= i < prev.len() && prev[i].alert_type == b && prev[i].connection_id == c
                && !prev[i].acknowledged && #[trigger] prev[i].created_at as int + ALERT_DEDUP_SECS >= now;
            assert(next[i] == prev[i]);
        }
    }
}

} // verus!
