//! Which insights the collector raises: capture problems seen in agent
//! health, collector lag, encrypted DNS resolvers, and protocol pairs that
//! reveal trackers and VPN tunnels.

use vstd::prelude::*;

use crate::insights_model::InsightWindow;
use crate::query::{parse_u64, parse_u64_spec};
use crate::realtime::{chars_le, chars_le_exec, lemma_chars_le_total, GatewayHealthSnapshot};
use crate::sampling::bytes_eq;
use crate::ingest::sat_add;
use crate::text::{
    chars_of, count_parse, first_match_from, find_from, lemma_first_match_props, parse_count, str_eq,
};

verus! {

/// Tracker and peer flows, and the two flows of a tunnel, correlate when
/// they are at most thirty minutes apart.
pub const CORRELATION_WINDOW_MS: u64 = 1_800_000;

/// A capture problem the agent's health report shows.
#[derive(Clone, Debug, PartialEq, Eq)]
pub enum CaptureFinding {
    HardwareFlowOffload,
    /// A topology risk: its code and message.
    Topology { code: &'static str, message: &'static str },
    InterfaceCounterGap,
    DnsEventDrops { count: u64 },
    ProbeDrops { count: u64 },
    QueueDrops { count: u64 },
}

/// Whether a warning text mentions asymmetric routing.
pub open spec fn mentions_asymmetric_routing(warnings: Seq<String>) -> bool {
    exists|i: int|
        0 <= i < warnings.len() && #[trigger] first_match_from(warnings[i]@, "Asymmetric routing"@, 0) is Some
}

/// The topology risks of a health report, in order.
pub open spec fn topology_findings(h: GatewayHealthSnapshot) -> Seq<CaptureFinding> {
    match h.topology {
        None => Seq::empty(),
        Some(t) => (if t.icmp_redirect@ == "enabled"@ {
            seq![
                CaptureFinding::Topology {
                    code: "capture.icmp_redirect_enabled",
                    message: "ICMP Redirect enabled; clients may bypass netqmon.",
                },
            ]
        } else {
            Seq::<CaptureFinding>::empty()
        }) + (if t.ipv4_coverage@ != "full"@ {
            seq![
                CaptureFinding::Topology {
                    code: "capture.ipv4_coverage",
                    message: "IPv4 capture coverage is incomplete.",
                },
            ]
        } else {
            Seq::<CaptureFinding>::empty()
        }) + (if t.ipv6_coverage@ != "full"@ {
            seq![
                CaptureFinding::Topology {
                    code: "capture.ipv6_coverage",
                    message: "IPv6 capture coverage is incomplete.",
                },
            ]
        } else {
            Seq::<CaptureFinding>::empty()
        }) + (if t.software_flow_offload@ == "enabled"@ {
            seq![
                CaptureFinding::Topology {
                    code: "capture.software_flow_offload",
                    message: "Software flow offload may bypass dataplane observation.",
                },
            ]
        } else {
            Seq::<CaptureFinding>::empty()
        }) + (if t.confidence < 70 {
            seq![
                CaptureFinding::Topology {
                    code: "capture.topology_confidence",
                    message: "Topology inference confidence is low or unknown.",
                },
            ]
        } else {
            Seq::<CaptureFinding>::empty()
        }) + (if mentions_asymmetric_routing(t.topology_warnings@) {
            seq![
                CaptureFinding::Topology {
                    code: "capture.asymmetric_routing",
                    message: "Asymmetric routing is suspected from packet coverage.",
                },
            ]
        } else {
            Seq::<CaptureFinding>::empty()
        }),
    }
}

/// The capture findings of a health report observed inside the window, in
/// the order they are listed: hardware offload, topology risks, interface
/// counter gap, DNS event drops, probe drops, telemetry queue drops.
pub open spec fn capture_findings_spec(h: GatewayHealthSnapshot, window: InsightWindow) -> Seq<CaptureFinding> {
    if h.observed_at < window.from || h.observed_at >= window.to {
        Seq::empty()
    } else {
        (if h.hardware_flow_offload@ == "enabled"@ {
            seq![CaptureFinding::HardwareFlowOffload]
        } else {
            Seq::<CaptureFinding>::empty()
        }) + topology_findings(h) + (if h.interface_counter_sanity@ == "degraded"@ {
            seq![CaptureFinding::InterfaceCounterGap]
        } else {
            Seq::<CaptureFinding>::empty()
        }) + (if h.dns_dropped_events > 0 {
            seq![CaptureFinding::DnsEventDrops { count: h.dns_dropped_events }]
        } else {
            Seq::<CaptureFinding>::empty()
        }) + (if h.protocol_probe_dropped_events > 0 {
            seq![CaptureFinding::ProbeDrops { count: h.protocol_probe_dropped_events }]
        } else {
            Seq::<CaptureFinding>::empty()
        }) + (if h.dropped_batches > 0 {
            seq![CaptureFinding::QueueDrops { count: h.dropped_batches }]
        } else {
            Seq::<CaptureFinding>::empty()
        })
    }
}

fn any_asymmetric(warnings: &Vec<String>) -> (r: bool)
    ensures
        r == mentions_asymmetric_routing(warnings@),
{
    let pat = chars_of("Asymmetric routing");
    let mut i: usize = 0;
    while i < warnings.len()
        invariant
            i <= warnings@.len(),
            pat@ == "Asymmetric routing"@,
            forall|k: int|
                0 <= k < i ==> !(#[trigger] first_match_from(warnings@[k]@, "Asymmetric routing"@, 0) is Some),
        decreases warnings@.len() - i,
    {
        let w = chars_of(warnings[i].as_str());
        proof {
            lemma_first_match_props(w@, pat@, 0);
        }
        if find_from(w.as_slice(), pat.as_slice(), 0).is_some() {
            return true;
        }
        i = i + 1;
    }
    false
}

fn push_finding(out: &mut Vec<CaptureFinding>, f: CaptureFinding)
    ensures
        final(out)@ == old(out)@.push(f),
{
    out.push(f);
}

fn push_topology_findings(out: &mut Vec<CaptureFinding>, h: &GatewayHealthSnapshot)
    ensures
        final(out)@ == old(out)@ + topology_findings(*h),
{
    let ghost start = out@;
    match &h.topology {
        Some(t) => {
            if str_eq(t.icmp_redirect.as_str(), "enabled") {
                push_finding(out, CaptureFinding::Topology {
                    code: "capture.icmp_redirect_enabled",
                    message: "ICMP Redirect enabled; clients may bypass netqmon.",
                });
            }
            if !str_eq(t.ipv4_coverage.as_str(), "full") {
                push_finding(out, CaptureFinding::Topology {
                    code: "capture.ipv4_coverage",
                    message: "IPv4 capture coverage is incomplete.",
                });
            }
            if !str_eq(t.ipv6_coverage.as_str(), "full") {
                push_finding(out, CaptureFinding::Topology {
                    code: "capture.ipv6_coverage",
                    message: "IPv6 capture coverage is incomplete.",
                });
            }
            if str_eq(t.software_flow_offload.as_str(), "enabled") {
                push_finding(out, CaptureFinding::Topology {
                    code: "capture.software_flow_offload",
                    message: "Software flow offload may bypass dataplane observation.",
                });
            }
            if t.confidence < 70 {
                push_finding(out, CaptureFinding::Topology {
                    code: "capture.topology_confidence",
                    message: "Topology inference confidence is low or unknown.",
                });
            }
            if any_asymmetric(&t.topology_warnings) {
                push_finding(out, CaptureFinding::Topology {
                    code: "capture.asymmetric_routing",
                    message: "Asymmetric routing is suspected from packet coverage.",
                });
            }
        },
        None => {},
    }
    assert(out@ =~= start + topology_findings(*h));
}

pub fn capture_findings(health: &GatewayHealthSnapshot, window: InsightWindow) -> (r: Vec<CaptureFinding>)
    ensures
        r@ == capture_findings_spec(*health, window),
{
    let mut out: Vec<CaptureFinding> = Vec::new();
    if health.observed_at < window.from || health.observed_at >= window.to {
        return out;
    }
    let h = health;
    let ghost s0 = out@;
    if str_eq(h.hardware_flow_offload.as_str(), "enabled") {
        push_finding(&mut out, CaptureFinding::HardwareFlowOffload);
    }
    let ghost s1 = out@;
    push_topology_findings(&mut out, h);
    let ghost s2 = out@;
    if str_eq(h.interface_counter_sanity.as_str(), "degraded") {
        push_finding(&mut out, CaptureFinding::InterfaceCounterGap);
    }
    if h.dns_dropped_events > 0 {
        push_finding(&mut out, CaptureFinding::DnsEventDrops { count: h.dns_dropped_events });
    }
    if h.protocol_probe_dropped_events > 0 {
        push_finding(&mut out, CaptureFinding::ProbeDrops { count: h.protocol_probe_dropped_events });
    }
    if h.dropped_batches > 0 {
        push_finding(&mut out, CaptureFinding::QueueDrops { count: h.dropped_batches });
    }
    proof {
        assert(s2 =~= s1 + topology_findings(*h));
        assert(out@ =~= capture_findings_spec(*h, window));
    }
    out
}

/// How far the collector lags behind the agent: the time of the latest
/// batch received (the snapshot time when none is recorded; negative
/// times count as zero) minus the snapshot time, when it reaches the
/// threshold.
pub fn collector_lag(received_at: Option<i64>, generated_at: u64, threshold_ms: u64) -> (r: Option<u64>)
    ensures
        ({
            let received = match received_at {
                Some(t) => if t < 0 { 0 } else { t as int },
                None => generated_at as int,
            };
            let lag = if received >= generated_at { received - generated_at } else { 0 };
            &&& lag >= threshold_ms ==> r == Some(lag as u64)
            &&& lag < threshold_ms ==> r is None
        }),
{
    let received = match received_at {
        Some(t) => crate::insights_model::to_u64(t),
        None => generated_at,
    };
    let lag = received.saturating_sub(generated_at);
    if lag >= threshold_ms {
        Some(lag)
    } else {
        None
    }
}

/// The public resolver an encrypted-DNS destination belongs to.
pub open spec fn encrypted_dns_provider_spec(ip: Seq<char>) -> Option<Seq<char>> {
    if ip == "1.1.1.1"@ || ip == "1.0.0.1"@ || ip == "2606:4700:4700::1111"@ || ip
        == "2606:4700:4700::1001"@ {
        Some("Cloudflare"@)
    } else if ip == "8.8.8.8"@ || ip == "8.8.4.4"@ || ip == "2001:4860:4860::8888"@ || ip
        == "2001:4860:4860::8844"@ {
        Some("Google"@)
    } else if ip == "9.9.9.9"@ || ip == "149.112.112.112"@ || ip == "2620:fe::fe"@ || ip
        == "2620:fe::9"@ {
        Some("Quad9"@)
    } else {
        None
    }
}

pub fn encrypted_dns_provider(ip: &str) -> (r: Option<&'static str>)
    ensures
        match r {
            Some(p) => encrypted_dns_provider_spec(ip@) == Some(p@),
            None => encrypted_dns_provider_spec(ip@) is None,
        },
{
    if str_eq(ip, "1.1.1.1") || str_eq(ip, "1.0.0.1") || str_eq(ip, "2606:4700:4700::1111")
        || str_eq(ip, "2606:4700:4700::1001") {
        Some("Cloudflare")
    } else if str_eq(ip, "8.8.8.8") || str_eq(ip, "8.8.4.4") || str_eq(ip, "2001:4860:4860::8888")
        || str_eq(ip, "2001:4860:4860::8844") {
        Some("Google")
    } else if str_eq(ip, "9.9.9.9") || str_eq(ip, "149.112.112.112") || str_eq(ip, "2620:fe::fe")
        || str_eq(ip, "2620:fe::9") {
        Some("Quad9")
    } else {
        None
    }
}

/// The public resolvers whose encrypted DNS is reported, as data: each
/// address with its provider.
pub open spec fn encrypted_dns_resolvers() -> Seq<(Seq<char>, Seq<char>)> {
    seq![
        ("1.1.1.1"@, "Cloudflare"@),
        ("1.0.0.1"@, "Cloudflare"@),
        ("2606:4700:4700::1111"@, "Cloudflare"@),
        ("2606:4700:4700::1001"@, "Cloudflare"@),
        ("8.8.8.8"@, "Google"@),
        ("8.8.4.4"@, "Google"@),
        ("2001:4860:4860::8888"@, "Google"@),
        ("2001:4860:4860::8844"@, "Google"@),
        ("9.9.9.9"@, "Quad9"@),
        ("149.112.112.112"@, "Quad9"@),
        ("2620:fe::fe"@, "Quad9"@),
        ("2620:fe::9"@, "Quad9"@),
    ]
}

/// Law: every listed resolver address is attributed to its provider, and
/// an address that is not listed to none.
pub proof fn lemma_encrypted_dns_provider_table(ip: Seq<char>)
    ensures
        forall|k: int|
            0 <= k < encrypted_dns_resolvers().len() ==> encrypted_dns_provider_spec(
                #[trigger] encrypted_dns_resolvers()[k].0,
            ) == Some(encrypted_dns_resolvers()[k].1),
        (forall|k: int| 0 <= k < encrypted_dns_resolvers().len() ==> ip != #[trigger] encrypted_dns_resolvers()[k].0)
            ==> encrypted_dns_provider_spec(ip) is None,
{
    let t = encrypted_dns_resolvers();
    assert forall|k: int| 0 <= k < t.len() implies encrypted_dns_provider_spec(#[trigger] t[k].0) == Some(t[k].1) by {
        lemma_listed_resolver(k);
    }
    if forall|k: int| 0 <= k < t.len() ==> ip != #[trigger] t[k].0 {
        assert(ip != t[0].0 && ip != t[1].0 && ip != t[2].0 && ip != t[3].0);
        assert(ip != t[4].0 && ip != t[5].0 && ip != t[6].0 && ip != t[7].0);
        assert(ip != t[8].0 && ip != t[9].0 && ip != t[10].0 && ip != t[11].0);
    }
}

proof fn lemma_listed_resolver(k: int)
    requires
        0 <= k < encrypted_dns_resolvers().len(),
    ensures
        encrypted_dns_provider_spec(encrypted_dns_resolvers()[k].0) == Some(encrypted_dns_resolvers()[k].1),
{
    let t = encrypted_dns_resolvers();
    if k == 0 {
        assert(t[0].0 == "1.1.1.1"@ && t[0].1 == "Cloudflare"@);
    } else if k == 1 {
        assert(t[1].0 == "1.0.0.1"@ && t[1].1 == "Cloudflare"@);
    } else if k == 2 {
        assert(t[2].0 == "2606:4700:4700::1111"@ && t[2].1 == "Cloudflare"@);
    } else if k == 3 {
        assert(t[3].0 == "2606:4700:4700::1001"@ && t[3].1 == "Cloudflare"@);
    } else if k == 4 {
        assert(t[4].0 == "8.8.8.8"@ && t[4].1 == "Google"@);
        assert("8.8.8.8"@ != "1.1.1.1"@) by {
            reveal_strlit("8.8.8.8");
            reveal_strlit("1.1.1.1");
            assert("8.8.8.8"@[0] != "1.1.1.1"@[0]);
        }
        assert("8.8.8.8"@ != "1.0.0.1"@) by {
            reveal_strlit("8.8.8.8");
            reveal_strlit("1.0.0.1");
            assert("8.8.8.8"@[0] != "1.0.0.1"@[0]);
        }
        assert("8.8.8.8"@ != "2606:4700:4700::1111"@) by {
            reveal_strlit("8.8.8.8");
            reveal_strlit("2606:4700:4700::1111");
            assert("8.8.8.8"@.len() != "2606:4700:4700::1111"@.len());
        }
        assert("8.8.8.8"@ != "2606:4700:4700::1001"@) by {
            reveal_strlit("8.8.8.8");
            reveal_strlit("2606:4700:4700::1001");
            assert("8.8.8.8"@.len() != "2606:4700:4700::1001"@.len());
        }
    } else if k == 5 {
        assert(t[5].0 == "8.8.4.4"@ && t[5].1 == "Google"@);
        assert("8.8.4.4"@ != "1.1.1.1"@) by {
            reveal_strlit("8.8.4.4");
            reveal_strlit("1.1.1.1");
            assert("8.8.4.4"@[0] != "1.1.1.1"@[0]);
        }
        assert("8.8.4.4"@ != "1.0.0.1"@) by {
            reveal_strlit("8.8.4.4");
            reveal_strlit("1.0.0.1");
            assert("8.8.4.4"@[0] != "1.0.0.1"@[0]);
        }
        assert("8.8.4.4"@ != "2606:4700:4700::1111"@) by {
            reveal_strlit("8.8.4.4");
            reveal_strlit("2606:4700:4700::1111");
            assert("8.8.4.4"@.len() != "2606:4700:4700::1111"@.len());
        }
        assert("8.8.4.4"@ != "2606:4700:4700::1001"@) by {
            reveal_strlit("8.8.4.4");
            reveal_strlit("2606:4700:4700::1001");
            assert("8.8.4.4"@.len() != "2606:4700:4700::1001"@.len());
        }
    } else if k == 6 {
        assert(t[6].0 == "2001:4860:4860::8888"@ && t[6].1 == "Google"@);
        assert("2001:4860:4860::8888"@ != "1.1.1.1"@) by {
            reveal_strlit("2001:4860:4860::8888");
            reveal_strlit("1.1.1.1");
            assert("2001:4860:4860::8888"@.len() != "1.1.1.1"@.len());
        }
        assert("2001:4860:4860::8888"@ != "1.0.0.1"@) by {
            reveal_strlit("2001:4860:4860::8888");
            reveal_strlit("1.0.0.1");
            assert("2001:4860:4860::8888"@.len() != "1.0.0.1"@.len());
        }
        assert("2001:4860:4860::8888"@ != "2606:4700:4700::1111"@) by {
            reveal_strlit("2001:4860:4860::8888");
            reveal_strlit("2606:4700:4700::1111");
            assert("2001:4860:4860::8888"@[1] != "2606:4700:4700::1111"@[1]);
        }
        assert("2001:4860:4860::8888"@ != "2606:4700:4700::1001"@) by {
            reveal_strlit("2001:4860:4860::8888");
            reveal_strlit("2606:4700:4700::1001");
            assert("2001:4860:4860::8888"@[1] != "2606:4700:4700::1001"@[1]);
        }
    } else if k == 7 {
        assert(t[7].0 == "2001:4860:4860::8844"@ && t[7].1 == "Google"@);
        assert("2001:4860:4860::8844"@ != "1.1.1.1"@) by {
            reveal_strlit("2001:4860:4860::8844");
            reveal_strlit("1.1.1.1");
            assert("2001:4860:4860::8844"@.len() != "1.1.1.1"@.len());
        }
        assert("2001:4860:4860::8844"@ != "1.0.0.1"@) by {
            reveal_strlit("2001:4860:4860::8844");
            reveal_strlit("1.0.0.1");
            assert("2001:4860:4860::8844"@.len() != "1.0.0.1"@.len());
        }
        assert("2001:4860:4860::8844"@ != "2606:4700:4700::1111"@) by {
            reveal_strlit("2001:4860:4860::8844");
            reveal_strlit("2606:4700:4700::1111");
            assert("2001:4860:4860::8844"@[1] != "2606:4700:4700::1111"@[1]);
        }
        assert("2001:4860:4860::8844"@ != "2606:4700:4700::1001"@) by {
            reveal_strlit("2001:4860:4860::8844");
            reveal_strlit("2606:4700:4700::1001");
            assert("2001:4860:4860::8844"@[1] != "2606:4700:4700::1001"@[1]);
        }
    } else if k == 8 {
        assert(t[8].0 == "9.9.9.9"@ && t[8].1 == "Quad9"@);
        assert("9.9.9.9"@ != "1.1.1.1"@) by {
            reveal_strlit("9.9.9.9");
            reveal_strlit("1.1.1.1");
            assert("9.9.9.9"@[0] != "1.1.1.1"@[0]);
        }
        assert("9.9.9.9"@ != "1.0.0.1"@) by {
            reveal_strlit("9.9.9.9");
            reveal_strlit("1.0.0.1");
            assert("9.9.9.9"@[0] != "1.0.0.1"@[0]);
        }
        assert("9.9.9.9"@ != "2606:4700:4700::1111"@) by {
            reveal_strlit("9.9.9.9");
            reveal_strlit("2606:4700:4700::1111");
            assert("9.9.9.9"@.len() != "2606:4700:4700::1111"@.len());
        }
        assert("9.9.9.9"@ != "2606:4700:4700::1001"@) by {
            reveal_strlit("9.9.9.9");
            reveal_strlit("2606:4700:4700::1001");
            assert("9.9.9.9"@.len() != "2606:4700:4700::1001"@.len());
        }
        assert("9.9.9.9"@ != "8.8.8.8"@) by {
            reveal_strlit("9.9.9.9");
            reveal_strlit("8.8.8.8");
            assert("9.9.9.9"@[0] != "8.8.8.8"@[0]);
        }
        assert("9.9.9.9"@ != "8.8.4.4"@) by {
            reveal_strlit("9.9.9.9");
            reveal_strlit("8.8.4.4");
            assert("9.9.9.9"@[0] != "8.8.4.4"@[0]);
        }
        assert("9.9.9.9"@ != "2001:4860:4860::8888"@) by {
            reveal_strlit("9.9.9.9");
            reveal_strlit("2001:4860:4860::8888");
            assert("9.9.9.9"@.len() != "2001:4860:4860::8888"@.len());
        }
        assert("9.9.9.9"@ != "2001:4860:4860::8844"@) by {
            reveal_strlit("9.9.9.9");
            reveal_strlit("2001:4860:4860::8844");
            assert("9.9.9.9"@.len() != "2001:4860:4860::8844"@.len());
        }
    } else if k == 9 {
        assert(t[9].0 == "149.112.112.112"@ && t[9].1 == "Quad9"@);
        assert("149.112.112.112"@ != "1.1.1.1"@) by {
            reveal_strlit("149.112.112.112");
            reveal_strlit("1.1.1.1");
            assert("149.112.112.112"@.len() != "1.1.1.1"@.len());
        }
        assert("149.112.112.112"@ != "1.0.0.1"@) by {
            reveal_strlit("149.112.112.112");
            reveal_strlit("1.0.0.1");
            assert("149.112.112.112"@.len() != "1.0.0.1"@.len());
        }
        assert("149.112.112.112"@ != "2606:4700:4700::1111"@) by {
            reveal_strlit("149.112.112.112");
            reveal_strlit("2606:4700:4700::1111");
            assert("149.112.112.112"@.len() != "2606:4700:4700::1111"@.len());
        }
        assert("149.112.112.112"@ != "2606:4700:4700::1001"@) by {
            reveal_strlit("149.112.112.112");
            reveal_strlit("2606:4700:4700::1001");
            assert("149.112.112.112"@.len() != "2606:4700:4700::1001"@.len());
        }
        assert("149.112.112.112"@ != "8.8.8.8"@) by {
            reveal_strlit("149.112.112.112");
            reveal_strlit("8.8.8.8");
            assert("149.112.112.112"@.len() != "8.8.8.8"@.len());
        }
        assert("149.112.112.112"@ != "8.8.4.4"@) by {
            reveal_strlit("149.112.112.112");
            reveal_strlit("8.8.4.4");
            assert("149.112.112.112"@.len() != "8.8.4.4"@.len());
        }
        assert("149.112.112.112"@ != "2001:4860:4860::8888"@) by {
            reveal_strlit("149.112.112.112");
            reveal_strlit("2001:4860:4860::8888");
            assert("149.112.112.112"@.len() != "2001:4860:4860::8888"@.len());
        }
        assert("149.112.112.112"@ != "2001:4860:4860::8844"@) by {
            reveal_strlit("149.112.112.112");
            reveal_strlit("2001:4860:4860::8844");
            assert("149.112.112.112"@.len() != "2001:4860:4860::8844"@.len());
        }
    } else if k == 10 {
        assert(t[10].0 == "2620:fe::fe"@ && t[10].1 == "Quad9"@);
        assert("2620:fe::fe"@ != "1.1.1.1"@) by {
            reveal_strlit("2620:fe::fe");
            reveal_strlit("1.1.1.1");
            assert("2620:fe::fe"@.len() != "1.1.1.1"@.len());
        }
        assert("2620:fe::fe"@ != "1.0.0.1"@) by {
            reveal_strlit("2620:fe::fe");
            reveal_strlit("1.0.0.1");
            assert("2620:fe::fe"@.len() != "1.0.0.1"@.len());
        }
        assert("2620:fe::fe"@ != "2606:4700:4700::1111"@) by {
            reveal_strlit("2620:fe::fe");
            reveal_strlit("2606:4700:4700::1111");
            assert("2620:fe::fe"@.len() != "2606:4700:4700::1111"@.len());
        }
        assert("2620:fe::fe"@ != "2606:4700:4700::1001"@) by {
            reveal_strlit("2620:fe::fe");
            reveal_strlit("2606:4700:4700::1001");
            assert("2620:fe::fe"@.len() != "2606:4700:4700::1001"@.len());
        }
        assert("2620:fe::fe"@ != "8.8.8.8"@) by {
            reveal_strlit("2620:fe::fe");
            reveal_strlit("8.8.8.8");
            assert("2620:fe::fe"@.len() != "8.8.8.8"@.len());
        }
        assert("2620:fe::fe"@ != "8.8.4.4"@) by {
            reveal_strlit("2620:fe::fe");
            reveal_strlit("8.8.4.4");
            assert("2620:fe::fe"@.len() != "8.8.4.4"@.len());
        }
        assert("2620:fe::fe"@ != "2001:4860:4860::8888"@) by {
            reveal_strlit("2620:fe::fe");
            reveal_strlit("2001:4860:4860::8888");
            assert("2620:fe::fe"@.len() != "2001:4860:4860::8888"@.len());
        }
        assert("2620:fe::fe"@ != "2001:4860:4860::8844"@) by {
            reveal_strlit("2620:fe::fe");
            reveal_strlit("2001:4860:4860::8844");
            assert("2620:fe::fe"@.len() != "2001:4860:4860::8844"@.len());
        }
    } else if k == 11 {
        assert(t[11].0 == "2620:fe::9"@ && t[11].1 == "Quad9"@);
        assert("2620:fe::9"@ != "1.1.1.1"@) by {
            reveal_strlit("2620:fe::9");
            reveal_strlit("1.1.1.1");
            assert("2620:fe::9"@.len() != "1.1.1.1"@.len());
        }
        assert("2620:fe::9"@ != "1.0.0.1"@) by {
            reveal_strlit("2620:fe::9");
            reveal_strlit("1.0.0.1");
            assert("2620:fe::9"@.len() != "1.0.0.1"@.len());
        }
        assert("2620:fe::9"@ != "2606:4700:4700::1111"@) by {
            reveal_strlit("2620:fe::9");
            reveal_strlit("2606:4700:4700::1111");
            assert("2620:fe::9"@.len() != "2606:4700:4700::1111"@.len());
        }
        assert("2620:fe::9"@ != "2606:4700:4700::1001"@) by {
            reveal_strlit("2620:fe::9");
            reveal_strlit("2606:4700:4700::1001");
            assert("2620:fe::9"@.len() != "2606:4700:4700::1001"@.len());
        }
        assert("2620:fe::9"@ != "8.8.8.8"@) by {
            reveal_strlit("2620:fe::9");
            reveal_strlit("8.8.8.8");
            assert("2620:fe::9"@.len() != "8.8.8.8"@.len());
        }
        assert("2620:fe::9"@ != "8.8.4.4"@) by {
            reveal_strlit("2620:fe::9");
            reveal_strlit("8.8.4.4");
            assert("2620:fe::9"@.len() != "8.8.4.4"@.len());
        }
        assert("2620:fe::9"@ != "2001:4860:4860::8888"@) by {
            reveal_strlit("2620:fe::9");
            reveal_strlit("2001:4860:4860::8888");
            assert("2620:fe::9"@.len() != "2001:4860:4860::8888"@.len());
        }
        assert("2620:fe::9"@ != "2001:4860:4860::8844"@) by {
            reveal_strlit("2620:fe::9");
            reveal_strlit("2001:4860:4860::8844");
            assert("2620:fe::9"@.len() != "2001:4860:4860::8844"@.len());
        }
    }
}

/// A stored flow, as far as insights read it.
#[derive(Clone, Debug, PartialEq, Eq)]
pub struct AnalyticsFlow {
    pub flow_id: String,
    pub device_id: u64,
    pub client_ip: Vec<u8>,
    pub remote_ip: Vec<u8>,
    pub protocol: u32,
    pub remote_port: u32,
    pub application_id: String,
    pub protocol_id: String,
    pub traffic_role: String,
    pub category_id: String,
    pub last_seen_at: u64,
    pub upload_bytes: u64,
    pub download_bytes: u64,
}

/// Whether two times are within the correlation window of each other.
pub open spec fn close_in_time(a: u64, b: u64) -> bool {
    (if a >= b { a - b } else { b - a }) <= CORRELATION_WINDOW_MS
}

/// Two different flows of the same client, close in time.
pub open spec fn same_client_near(a: AnalyticsFlow, b: AnalyticsFlow) -> bool {
    &&& a.device_id == b.device_id
    &&& a.client_ip@ == b.client_ip@
    &&& a.flow_id@ != b.flow_id@
    &&& close_in_time(a.last_seen_at, b.last_seen_at)
}

pub open spec fn is_tracker(f: AnalyticsFlow) -> bool {
    f.traffic_role@ == "tracker_service"@ && f.category_id@ == "p2p"@
}

pub open spec fn is_bittorrent(f: AnalyticsFlow) -> bool {
    f.protocol_id@ == "bittorrent"@
}

/// Bytes of a flow in both directions, saturating.
pub open spec fn flow_bytes(f: AnalyticsFlow) -> int {
    if f.upload_bytes + f.download_bytes > u64::MAX {
        u64::MAX as int
    } else {
        f.upload_bytes + f.download_bytes
    }
}

/// A tracker flow with the BitTorrent peer flows of the same client around
/// it: their indices, bytes (saturating), and the latest time among them.
#[derive(Clone, Debug, PartialEq, Eq)]
pub struct TrackerFinding {
    pub tracker: usize,
    pub peers: Vec<usize>,
    pub peer_bytes: u64,
    pub time: u64,
}

/// The peers of the `t`-th flow among the first `k` flows, in order.
pub open spec fn peers_of(flows: Seq<AnalyticsFlow>, t: int, k: int) -> Seq<usize>
    decreases k,
{
    if k <= 0 {
        Seq::empty()
    } else {
        peers_of(flows, t, k - 1) + if is_bittorrent(flows[k - 1]) && same_client_near(
            flows[k - 1],
            flows[t],
        ) {
            seq![(k - 1) as usize]
        } else {
            Seq::<usize>::empty()
        }
    }
}

/// Saturating sum of the bytes of the listed flows.
pub open spec fn bytes_of(flows: Seq<AnalyticsFlow>, idx: Seq<usize>) -> int
    decreases idx.len(),
{
    if idx.len() == 0 {
        0
    } else {
        let s = bytes_of(flows, idx.drop_last()) + flow_bytes(flows[idx.last() as int]);
        if s > u64::MAX {
            u64::MAX as int
        } else {
            s
        }
    }
}

/// The latest time among the listed flows and `start`.
pub open spec fn latest_of(flows: Seq<AnalyticsFlow>, idx: Seq<usize>, start: u64) -> u64
    decreases idx.len(),
{
    if idx.len() == 0 {
        start
    } else {
        let m = latest_of(flows, idx.drop_last(), start);
        let t = flows[idx.last() as int].last_seen_at;
        if t > m {
            t
        } else {
            m
        }
    }
}

/// The tracker findings among the first `k` flows, in flow order: every
/// tracker flow that has peers.
pub open spec fn tracker_findings_spec(flows: Seq<AnalyticsFlow>, k: int) -> Seq<(usize, Seq<usize>, int, u64)>
    decreases k,
{
    if k <= 0 {
        Seq::empty()
    } else {
        let t = k - 1;
        let peers = peers_of(flows, t, flows.len() as int);
        tracker_findings_spec(flows, k - 1) + if is_tracker(flows[t]) && peers.len() > 0 {
            seq![(t as usize, peers, bytes_of(flows, peers), latest_of(flows, peers, flows[t].last_seen_at))]
        } else {
            Seq::<(usize, Seq<usize>, int, u64)>::empty()
        }
    }
}

pub open spec fn tracker_view(f: TrackerFinding) -> (usize, Seq<usize>, int, u64) {
    (f.tracker, f.peers@, f.peer_bytes as int, f.time)
}

fn abs_diff_ok(a: u64, b: u64) -> (r: bool)
    ensures
        r == close_in_time(a, b),
{
    (if a >= b { a - b } else { b - a }) <= CORRELATION_WINDOW_MS
}

fn same_client_near_exec(a: &AnalyticsFlow, b: &AnalyticsFlow) -> (r: bool)
    ensures
        r == same_client_near(*a, *b),
{
    a.device_id == b.device_id && bytes_eq(a.client_ip.as_slice(), b.client_ip.as_slice())
        && !(a.flow_id == b.flow_id) && abs_diff_ok(a.last_seen_at, b.last_seen_at)
}

/// Tracker flows and the peer flows that go with them.
pub fn tracker_correlations(flows: &Vec<AnalyticsFlow>) -> (r: Vec<TrackerFinding>)
    ensures
        r@.map_values(|f: TrackerFinding| tracker_view(f)) == tracker_findings_spec(
            flows@,
            flows@.len() as int,
        ),
{
    let ghost fl = flows@;
    let n = flows.len();
    let mut out: Vec<TrackerFinding> = Vec::new();
    let mut t: usize = 0;
    while t < n
        invariant
            t <= n == fl.len(),
            fl == flows@,
            out@.map_values(|f: TrackerFinding| tracker_view(f)) == tracker_findings_spec(fl, t as int),
        decreases n - t,
    {
        let tracker = &flows[t];
        let is_t = str_eq(tracker.traffic_role.as_str(), "tracker_service") && str_eq(
            tracker.category_id.as_str(),
            "p2p",
        );
        let mut peers: Vec<usize> = Vec::new();
        let mut bytes: u64 = 0;
        let mut time: u64 = tracker.last_seen_at;
        let mut j: usize = 0;
        while j < n
            invariant
                j <= n == fl.len(),
                t < n,
                fl == flows@,
                *tracker == fl[t as int],
                peers@ == peers_of(fl, t as int, j as int),
                bytes == bytes_of(fl, peers@),
                time == latest_of(fl, peers@, fl[t as int].last_seen_at),
                forall|m: int| 0 <= m < peers@.len() ==> peers@[m] < j,
            decreases n - j,
        {
            let f = &flows[j];
            let ghost prev_peers = peers@;
            let hit = str_eq(f.protocol_id.as_str(), "bittorrent") && same_client_near_exec(f, tracker);
            assert(hit == (is_bittorrent(fl[j as int]) && same_client_near(fl[j as int], fl[t as int])));
            if hit {
                let ghost before = peers@;
                peers.push(j);
                assert(peers@.drop_last() =~= before);
                let fb = f.upload_bytes.saturating_add(f.download_bytes);
                bytes = bytes.saturating_add(fb);
                if f.last_seen_at > time {
                    time = f.last_seen_at;
                }
                assert(peers@ =~= peers_of(fl, t as int, j as int + 1));
            } else {
                assert(prev_peers =~= peers_of(fl, t as int, j as int + 1));
            }
            j = j + 1;
        }
        let ghost out_before = out@.map_values(|f: TrackerFinding| tracker_view(f));
        if is_t && peers.len() > 0 {
            let ghost pv = peers@;
            out.push(TrackerFinding { tracker: t, peers, peer_bytes: bytes, time });
            assert(out@.map_values(|f: TrackerFinding| tracker_view(f)) =~= out_before.push(
                (t, pv, bytes as int, time),
            ));
        }
        proof {
            assert(out@.map_values(|f: TrackerFinding| tracker_view(f)) =~= tracker_findings_spec(
                fl,
                t as int + 1,
            ));
        }
        t = t + 1;
    }
    out
}

/// The kind of tunnel a pair of flows reveals.
#[derive(Clone, Copy, Debug, PartialEq, Eq, Structural)]
pub enum PairKind {
    IkeEsp,
    L2tpIpsec,
    PptpGre,
}

/// Two flows of the same client to the same remote, close in time.
pub open spec fn paired(a: AnalyticsFlow, b: AnalyticsFlow) -> bool {
    same_client_near(b, a) && b.remote_ip@ == a.remote_ip@
}

pub open spec fn is_ike(f: AnalyticsFlow) -> bool {
    f.protocol_id@ == "ike"@
}

pub open spec fn is_esp(f: AnalyticsFlow) -> bool {
    f.protocol_id@ == "ipsec_esp"@ || f.protocol == 50
}

pub open spec fn is_l2tp(f: AnalyticsFlow) -> bool {
    f.protocol_id@ == "l2tp"@ || (f.protocol == 17 && f.remote_port == 1701)
}

pub open spec fn is_ipsec(f: AnalyticsFlow) -> bool {
    f.protocol_id@ == "ike"@ || f.protocol_id@ == "ipsec_esp"@ || f.protocol == 50
}

pub open spec fn is_pptp(f: AnalyticsFlow) -> bool {
    f.protocol_id@ == "pptp"@ || (f.protocol == 6 && f.remote_port == 1723)
}

pub open spec fn is_gre(f: AnalyticsFlow) -> bool {
    f.protocol_id@ == "gre"@ || f.protocol == 47
}

/// The findings of one ordered pair of flows (`i`, `j`), in order: IKE and
/// ESP, L2TP with IPsec, PPTP with GRE. Each is listed once per unordered
/// pair: where both orders of the two flows would show it, only from the
/// order whose first flow's id does not sort after the second's.
pub open spec fn pair_row(flows: Seq<AnalyticsFlow>, i: int, j: int) -> Seq<(PairKind, usize, usize)> {
    let a = flows[i];
    let b = flows[j];
    let once = |x: int, y: int| chars_le(flows[x].flow_id@, flows[y].flow_id@);
    if !paired(a, b) {
        Seq::empty()
    } else {
        (if is_ike(a) && is_esp(b) && (!(is_ike(b) && is_esp(a)) || once(i, j)) {
            seq![(PairKind::IkeEsp, i as usize, j as usize)]
        } else {
            Seq::<(PairKind, usize, usize)>::empty()
        }) + (if (is_l2tp(a) && is_ipsec(b)) || (is_l2tp(b) && is_ipsec(a)) {
            let (x, y) = if is_l2tp(a) { (i, j) } else { (j, i) };
            if once(i, j) {
                seq![(PairKind::L2tpIpsec, x as usize, y as usize)]
            } else {
                Seq::<(PairKind, usize, usize)>::empty()
            }
        } else {
            Seq::<(PairKind, usize, usize)>::empty()
        }) + (if (is_pptp(a) && is_gre(b)) || (is_pptp(b) && is_gre(a)) {
            let (x, y) = if is_pptp(a) { (i, j) } else { (j, i) };
            if once(i, j) {
                seq![(PairKind::PptpGre, x as usize, y as usize)]
            } else {
                Seq::<(PairKind, usize, usize)>::empty()
            }
        } else {
            Seq::<(PairKind, usize, usize)>::empty()
        })
    }
}

/// A tunnel pair is reported from one side only: of the two orders in which
/// two flows meet, at most one yields a finding of each kind.
pub proof fn lemma_pair_reported_once(flows: Seq<AnalyticsFlow>, i: int, j: int)
    requires
        0 <= i < flows.len(),
        0 <= j < flows.len(),
    ensures
        !(row_has(pair_row(flows, i, j), PairKind::IkeEsp) && row_has(pair_row(flows, j, i), PairKind::IkeEsp)),
        !(row_has(pair_row(flows, i, j), PairKind::L2tpIpsec) && row_has(pair_row(flows, j, i), PairKind::L2tpIpsec)),
        !(row_has(pair_row(flows, i, j), PairKind::PptpGre) && row_has(pair_row(flows, j, i), PairKind::PptpGre)),
{
    lemma_chars_le_total(flows[i].flow_id@, flows[j].flow_id@);
}

/// Whether a row of findings holds one of the given kind.
pub open spec fn row_has(row: Seq<(PairKind, usize, usize)>, kind: PairKind) -> bool {
    exists|k: int| 0 <= k < row.len() && (#[trigger] row[k]).0 == kind
}

/// The findings of all pairs (`i`, `j`) with `j` below `k`.
pub open spec fn pair_findings_row(flows: Seq<AnalyticsFlow>, i: int, k: int) -> Seq<(PairKind, usize, usize)>
    decreases k,
{
    if k <= 0 {
        Seq::empty()
    } else {
        pair_findings_row(flows, i, k - 1) + pair_row(flows, i, k - 1)
    }
}

/// The findings of all pairs whose first flow is below `k`.
pub open spec fn pair_findings_spec(flows: Seq<AnalyticsFlow>, k: int) -> Seq<(PairKind, usize, usize)>
    decreases k,
{
    if k <= 0 {
        Seq::empty()
    } else {
        pair_findings_spec(flows, k - 1) + pair_findings_row(flows, k - 1, flows.len() as int)
    }
}

fn flow_id_le(flows: &Vec<AnalyticsFlow>, x: usize, y: usize) -> (r: bool)
    requires
        x < flows@.len(),
        y < flows@.len(),
    ensures
        r == chars_le(flows@[x as int].flow_id@, flows@[y as int].flow_id@),
{
    let a = chars_of(flows[x].flow_id.as_str());
    let b = chars_of(flows[y].flow_id.as_str());
    chars_le_exec(a.as_slice(), b.as_slice())
}

fn push_pair(out: &mut Vec<(PairKind, usize, usize)>, flows: &Vec<AnalyticsFlow>, i: usize, j: usize)
    requires
        i < flows@.len(),
        j < flows@.len(),
    ensures
        final(out)@ == old(out)@ + pair_row(flows@, i as int, j as int),
{
    let a = &flows[i];
    let b = &flows[j];
    let ghost start = out@;
    if !(same_client_near_exec(b, a) && bytes_eq(b.remote_ip.as_slice(), a.remote_ip.as_slice())) {
        assert(out@ =~= start + pair_row(flows@, i as int, j as int));
        return;
    }
    let a_id = a.protocol_id.as_str();
    let b_id = b.protocol_id.as_str();
    let a_ike = str_eq(a_id, "ike");
    let b_ike = str_eq(b_id, "ike");
    let a_esp_id = str_eq(a_id, "ipsec_esp");
    let b_esp_id = str_eq(b_id, "ipsec_esp");
    let symmetric = b_ike && (a_esp_id || a.protocol == 50);
    if a_ike && (b_esp_id || b.protocol == 50) && (!symmetric || flow_id_le(flows, i, j)) {
        out.push((PairKind::IkeEsp, i, j));
    }
    let ghost s1 = out@;
    let a_l2tp = str_eq(a_id, "l2tp") || (a.protocol == 17 && a.remote_port == 1701);
    let b_l2tp = str_eq(b_id, "l2tp") || (b.protocol == 17 && b.remote_port == 1701);
    let a_ipsec = a_ike || a_esp_id || a.protocol == 50;
    let b_ipsec = b_ike || b_esp_id || b.protocol == 50;
    if (a_l2tp && b_ipsec) || (b_l2tp && a_ipsec) {
        let (x, y) = if a_l2tp { (i, j) } else { (j, i) };
        if flow_id_le(flows, i, j) {
            out.push((PairKind::L2tpIpsec, x, y));
        }
    }
    let ghost s2 = out@;
    let a_pptp = str_eq(a_id, "pptp") || (a.protocol == 6 && a.remote_port == 1723);
    let b_pptp = str_eq(b_id, "pptp") || (b.protocol == 6 && b.remote_port == 1723);
    let a_gre = str_eq(a_id, "gre") || a.protocol == 47;
    let b_gre = str_eq(b_id, "gre") || b.protocol == 47;
    if (a_pptp && b_gre) || (b_pptp && a_gre) {
        let (x, y) = if a_pptp { (i, j) } else { (j, i) };
        if flow_id_le(flows, i, j) {
            out.push((PairKind::PptpGre, x, y));
        }
    }
    assert(out@ =~= start + pair_row(flows@, i as int, j as int));
}

/// Flow pairs that reveal IPsec, L2TP over IPsec, and PPTP tunnels.
pub fn pair_correlations(flows: &Vec<AnalyticsFlow>) -> (r: Vec<(PairKind, usize, usize)>)
    ensures
        r@ == pair_findings_spec(flows@, flows@.len() as int),
{
    let n = flows.len();
    let mut out: Vec<(PairKind, usize, usize)> = Vec::new();
    let mut i: usize = 0;
    while i < n
        invariant
            i <= n == flows@.len(),
            out@ == pair_findings_spec(flows@, i as int),
        decreases n - i,
    {
        let ghost row_start = out@;
        let mut j: usize = 0;
        while j < n
            invariant
                j <= n == flows@.len(),
                i < n,
                out@ == row_start + pair_findings_row(flows@, i as int, j as int),
            decreases n - j,
        {
            push_pair(&mut out, flows, i, j);
            proof {
                assert(out@ =~= row_start + pair_findings_row(flows@, i as int, j as int + 1));
            }
            j = j + 1;
        }
        i = i + 1;
    }
    out
}

/// One row of a traffic breakdown: the client or application key, its bytes
/// each way, and when it was last seen.
#[derive(Clone, Debug)]
pub struct TrafficRow {
    pub key: String,
    pub upload_bytes: u64,
    pub download_bytes: u64,
    pub last_seen_at: i64,
}

/// Traffic this far above the baseline is a spike: at least 10 MiB, and at
/// least three times the baseline.
pub const SPIKE_MIN_BYTES: u64 = 10_485_760;

pub open spec fn sat_mul3(x: u64) -> u64 {
    if 3 * x > u64::MAX {
        u64::MAX
    } else {
        (3 * x) as u64
    }
}

/// The window just before `[from, to)`, of the same length, if it starts
/// before `from`.
pub fn baseline_range(from: u64, to: u64) -> (r: Option<(u64, u64)>)
    ensures
        ({
            let d: int = if to >= from { to - from } else { 0 };
            let b: int = if from >= d { from - d } else { 0 };
            if b < from {
                r == Some((b as u64, from))
            } else {
                r is None
            }
        }),
{
    let duration = to.saturating_sub(from);
    let baseline_from = from.saturating_sub(duration);
    if baseline_from < from {
        Some((baseline_from, from))
    } else {
        None
    }
}

/// The rows of clients whose upload reached the threshold, with the client
/// id their key holds; rows whose key is not a number are passed over.
pub open spec fn high_upload_spec(rows: Seq<TrafficRow>, threshold: u64, n: int) -> Seq<(usize, u64)>
    decreases n,
{
    if n <= 0 {
        Seq::empty()
    } else {
        let prev = high_upload_spec(rows, threshold, n - 1);
        let r = rows[n - 1];
        match count_parse(r.key@, u64::MAX as int) {
            Ok(id) => if r.upload_bytes >= threshold {
                prev.push(((n - 1) as usize, id))
            } else {
                prev
            },
            Err(_) => prev,
        }
    }
}

pub fn high_upload_rows(rows: &Vec<TrafficRow>, threshold: u64) -> (r: Vec<(usize, u64)>)
    ensures
        r@ == high_upload_spec(rows@, threshold, rows@.len() as int),
{
    let mut out: Vec<(usize, u64)> = Vec::new();
    let mut i: usize = 0;
    while i < rows.len()
        invariant
            i <= rows@.len(),
            out@ == high_upload_spec(rows@, threshold, i as int),
        decreases rows@.len() - i,
    {
        match parse_count(rows[i].key.as_str(), u64::MAX) {
            Ok(id) => {
                if rows[i].upload_bytes >= threshold {
                    out.push((i, id));
                }
            },
            Err(_) => {},
        }
        i = i + 1;
    }
    out
}

/// The baseline total of a key: upload plus download of the last baseline
/// row with that key, as building a map from the rows keeps it.
pub open spec fn baseline_total(rows: Seq<TrafficRow>, key: Seq<char>, n: int) -> Option<u64>
    decreases n,
{
    if n <= 0 {
        None
    } else if rows[n - 1].key@ == key {
        Some(sat_add(rows[n - 1].upload_bytes, rows[n - 1].download_bytes))
    } else {
        baseline_total(rows, key, n - 1)
    }
}

/// A spike: the current row, its current and baseline totals, and the
/// number its key holds (0 where it holds none).
#[derive(Clone, Copy, Debug, PartialEq, Eq, Structural)]
pub struct Spike {
    pub row: usize,
    pub current: u64,
    pub baseline: u64,
    pub key_number: u64,
}

/// The current rows that spiked against a positive baseline, in order; the
/// `unknown` key is passed over when `skip_unknown` is set.
pub open spec fn spikes_spec(
    current: Seq<TrafficRow>,
    baseline: Seq<TrafficRow>,
    skip_unknown: bool,
    n: int,
) -> Seq<Spike>
    decreases n,
{
    if n <= 0 {
        Seq::empty()
    } else {
        let prev = spikes_spec(current, baseline, skip_unknown, n - 1);
        let r = current[n - 1];
        let total = sat_add(r.upload_bytes, r.download_bytes);
        if skip_unknown && r.key@ == "unknown"@ {
            prev
        } else {
            match baseline_total(baseline, r.key@, baseline.len() as int) {
                Some(old) => if old > 0 && total >= SPIKE_MIN_BYTES && total >= sat_mul3(old) {
                    prev.push(
                        Spike {
                            row: (n - 1) as usize,
                            current: total,
                            baseline: old,
                            key_number: match count_parse(r.key@, u64::MAX as int) {
                                Ok(v) => v,
                                Err(_) => 0,
                            },
                        },
                    )
                } else {
                    prev
                },
                None => prev,
            }
        }
    }
}

fn baseline_lookup(rows: &Vec<TrafficRow>, key: &str) -> (r: Option<u64>)
    ensures
        r == baseline_total(rows@, key@, rows@.len() as int),
{
    let mut i = rows.len();
    while i > 0
        invariant
            i <= rows@.len(),
            baseline_total(rows@, key@, rows@.len() as int) == baseline_total(rows@, key@, i as int),
        decreases i,
    {
        if str_eq(rows[i - 1].key.as_str(), key) {
            return Some(rows[i - 1].upload_bytes.saturating_add(rows[i - 1].download_bytes));
        }
        i = i - 1;
    }
    None
}

/// Finds the traffic spikes of the current window against the baseline.
pub fn traffic_spikes(current: &Vec<TrafficRow>, baseline: &Vec<TrafficRow>, skip_unknown: bool) -> (r: Vec<Spike>)
    ensures
        r@ == spikes_spec(current@, baseline@, skip_unknown, current@.len() as int),
{
    let mut out: Vec<Spike> = Vec::new();
    let mut i: usize = 0;
    while i < current.len()
        invariant
            i <= current@.len(),
            out@ == spikes_spec(current@, baseline@, skip_unknown, i as int),
        decreases current@.len() - i,
    {
        let r = &current[i];
        let total = r.upload_bytes.saturating_add(r.download_bytes);
        let unknown = str_eq(r.key.as_str(), "unknown");
        if !(skip_unknown && unknown) {
            match baseline_lookup(baseline, r.key.as_str()) {
                Some(old) => {
                    let tripled = match old.checked_mul(3) {
                        Some(v) => v,
                        None => u64::MAX,
                    };
                    if old > 0 && total >= SPIKE_MIN_BYTES && total >= tripled {
                        let key_number = match parse_count(r.key.as_str(), u64::MAX) {
                            Ok(v) => v,
                            Err(_) => 0,
                        };
                        out.push(Spike { row: i, current: total, baseline: old, key_number });
                    }
                },
                None => {},
            }
        }
        i = i + 1;
    }
    out
}


/// Listing order of insights by their times: later first, and in the order
/// they were raised among equal times.
pub open spec fn raised_before(times: Seq<u64>, i: int, j: int) -> bool {
    times[i] > times[j] || (times[i] == times[j] && i < j)
}

/// `r` lists, by position, the first `limit` insights in listing order:
/// as many as there are up to `limit`, each once, in order, and none left
/// out that comes before one listed.
pub open spec fn is_listing(r: Seq<usize>, times: Seq<u64>, limit: int) -> bool {
    &&& r.len() == if times.len() < limit { times.len() as int } else { limit }
    &&& forall|a: int| 0 <= a < r.len() ==> #[trigger] r[a] < times.len()
    &&& forall|a: int, b: int| 0 <= a < b < r.len() ==> raised_before(times, #[trigger] r[a] as int, #[trigger] r[b] as int)
    &&& forall|a: int, x: int|
        0 <= a < r.len() && 0 <= x < times.len() && !r.contains(x as usize) ==> #[trigger] raised_before(
            times,
            r[a] as int,
            x,
        )
}

/// The positions of the insights to show: latest first, insights with the
/// same time in the order they were raised, at most `limit` of them.
pub fn insight_listing(times: &Vec<u64>, limit: u32) -> (r: Vec<usize>)
    ensures
        is_listing(r@, times@, limit as int),
{
    let n = times.len();
    let mut rest: Vec<usize> = Vec::new();
    let mut k: usize = 0;
    while k < n
        invariant
            k <= n == times@.len(),
            rest@.len() == k,
            forall|a: int| 0 <= a < k ==> #[trigger] rest@[a] == a,
        decreases n - k,
    {
        rest.push(k);
        k = k + 1;
    }
    let mut out: Vec<usize> = Vec::new();
    let lim = limit as usize;
    assert forall|x: usize| #![trigger rest@.contains(x)] x < n implies rest@.contains(x) by {
        assert(rest@[x as int] == x);
    }
    assert forall|a: int, b: int| 0 <= a < rest@.len() && 0 <= b < rest@.len() && a != b implies rest@[a] != rest@[b] by {
        assert(rest@[a] == a && rest@[b] == b);
    }
    while out.len() < lim && rest.len() > 0
        invariant
            n == times@.len(),
            out@.len() + rest@.len() == n,
            out@.len() <= lim,
            lim == limit,
            forall|a: int| 0 <= a < out@.len() ==> #[trigger] out@[a] < n,
            forall|a: int| 0 <= a < rest@.len() ==> #[trigger] rest@[a] < n,
            forall|a: int, b: int| 0 <= a < rest@.len() && 0 <= b < rest@.len() && a != b ==> rest@[a] != rest@[b],
            forall|a: int, b: int| 0 <= a < out@.len() && 0 <= b < rest@.len() ==> out@[a] != rest@[b],
            forall|x: usize|
                #![trigger out@.contains(x)]
                #![trigger rest@.contains(x)]
                x < n ==> out@.contains(x) || rest@.contains(x),
            forall|a: int, b: int|
                0 <= a < b < out@.len() ==> raised_before(times@, #[trigger] out@[a] as int, #[trigger] out@[b] as int),
            forall|a: int, b: int|
                0 <= a < out@.len() && 0 <= b < rest@.len() ==> raised_before(
                    times@,
                    #[trigger] out@[a] as int,
                    #[trigger] rest@[b] as int,
                ),
        decreases rest@.len(),
    {
        let mut best: usize = 0;
        let mut i: usize = 1;
        while i < rest.len()
            invariant
                1 <= i <= rest@.len(),
                n == times@.len(),
                forall|a: int| 0 <= a < rest@.len() ==> #[trigger] rest@[a] < n,
                forall|a: int, b: int| 0 <= a < rest@.len() && 0 <= b < rest@.len() && a != b ==> rest@[a] != rest@[b],
                best < i,
                forall|j: int| 0 <= j < i && j != best ==> raised_before(times@, rest@[best as int] as int, #[trigger] rest@[j] as int),
            decreases rest@.len() - i,
        {
            let x = rest[i];
            let y = rest[best];
            if times[x] > times[y] || (times[x] == times[y] && x < y) {
                best = i;
            }
            i = i + 1;
        }
        let ghost rest0 = rest@;
        let ghost out0 = out@;
        let x = rest.remove(best);
        out.push(x);
        proof {
            assert(rest@ =~= rest0.remove(best as int));
            assert(out@ =~= out0.push(x));
            assert forall|a: int, b: int|
                0 <= a < out@.len() && 0 <= b < rest@.len() implies raised_before(
                times@,
                #[trigger] out@[a] as int,
                #[trigger] rest@[b] as int,
            ) by {
                let ob = if b < best { b } else { b + 1 };
                assert(rest@[b] == rest0[ob]);
                if a < out0.len() {
                    assert(out@[a] == out0[a]);
                }
            }
            assert forall|a: int, b: int| 0 <= a < b < out@.len() implies raised_before(
                times@,
                #[trigger] out@[a] as int,
                #[trigger] out@[b] as int,
            ) by {
                if b < out0.len() {
                    assert(out@[a] == out0[a]);
                    assert(out@[b] == out0[b]);
                } else {
                    assert(out@[a] == out0[a]);
                    assert(rest0[best as int] == x);
                }
            }
            assert forall|a: int, b: int| 0 <= a < out@.len() && 0 <= b < rest@.len() implies out@[a] != rest@[b] by {
                let ob = if b < best { b } else { b + 1 };
                assert(rest@[b] == rest0[ob]);
                if a < out0.len() {
                    assert(out@[a] == out0[a]);
                }
            }
            assert forall|a: int, b: int| 0 <= a < rest@.len() && 0 <= b < rest@.len() && a != b implies rest@[a] != rest@[b] by {
                let oa = if a < best { a } else { a + 1 };
                let ob = if b < best { b } else { b + 1 };
                assert(rest@[a] == rest0[oa]);
                assert(rest@[b] == rest0[ob]);
            }
            assert forall|y: usize|
                #![trigger out@.contains(y)]
                #![trigger rest@.contains(y)]
                y < n implies out@.contains(y) || rest@.contains(y) by {
                assert(out0.contains(y) || rest0.contains(y));
                if out0.contains(y) {
                    let a = choose|a: int| 0 <= a < out0.len() && out0[a] == y;
                    assert(out@[a] == y);
                } else {
                    let b = choose|b: int| 0 <= b < rest0.len() && rest0[b] == y;
                    if b == best {
                        assert(out@[out0.len() as int] == y);
                    } else {
                        let nb = if b < best { b } else { b - 1 };
                        assert(rest@[nb] == y);
                    }
                }
            }
        }
    }
    proof {
        assert forall|a: int, x: int|
            0 <= a < out@.len() && 0 <= x < times@.len() && !out@.contains(x as usize) implies #[trigger] raised_before(
            times@,
            out@[a] as int,
            x,
        ) by {
            assert(rest@.contains(x as usize));
            let b = choose|b: int| 0 <= b < rest@.len() && rest@[b] == x as usize;
            assert(rest@[b] as int == x);
            assert(raised_before(times@, out@[a] as int, rest@[b] as int));
        }
    }
    out
}


/// A flow or device uploading this many bytes in a window (1 GiB) is
/// reported, unless configured otherwise.
pub const DEFAULT_HIGH_UPLOAD_BYTES: u64 = 1_073_741_824;

/// The collector lags when its newest batch is this old (30 s), unless
/// configured otherwise.
pub const DEFAULT_COLLECTOR_LAG_MS: u64 = 30_000;

/// A positive decimal setting, or the default when it is unset, not a
/// number or zero.
pub open spec fn positive_setting(setting: Option<Seq<char>>, default: u64) -> u64 {
    match setting {
        Some(s) => match parse_u64_spec(s) {
            Some(v) => if v > 0 {
                v
            } else {
                default
            },
            None => default,
        },
        None => default,
    }
}

fn positive_setting_exec(setting: Option<&str>, default: u64) -> (r: u64)
    ensures
        r == positive_setting(
            match setting {
                Some(s) => Some(s@),
                None => None,
            },
            default,
        ),
{
    match setting {
        Some(s) => match parse_u64(s) {
            Some(v) => if v > 0 {
                v
            } else {
                default
            },
            None => default,
        },
        None => default,
    }
}

/// The upload threshold of the high-upload insight, from its setting.
pub fn high_upload_threshold_bytes(setting: Option<&str>) -> (r: u64)
    ensures
        r == positive_setting(
            match setting {
                Some(s) => Some(s@),
                None => None,
            },
            DEFAULT_HIGH_UPLOAD_BYTES,
        ),
{
    positive_setting_exec(setting, DEFAULT_HIGH_UPLOAD_BYTES)
}

/// The lag threshold of the collector-lag insight, from its setting.
pub fn collector_lag_threshold_ms(setting: Option<&str>) -> (r: u64)
    ensures
        r == positive_setting(
            match setting {
                Some(s) => Some(s@),
                None => None,
            },
            DEFAULT_COLLECTOR_LAG_MS,
        ),
{
    positive_setting_exec(setting, DEFAULT_COLLECTOR_LAG_MS)
}

} // verus!
