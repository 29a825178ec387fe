use neil_blueprint::cluster::{
    extract_main_field, extract_number, extract_obj_field, extract_string, parse_peers, parse_recent,
    parse_temps, PeerInstance,
};
use neil_blueprint::cluster_layout::{
    cards_per_row, cluster_children_count, cluster_nav_down, cluster_nav_left, cluster_nav_right,
    cluster_nav_up, detect_pair_partner, fmt_duration, group_peers_by_pair, order_peers,
    peer_ip_at_selection, pick_cluster_tier, status_dot, ClusterTier,
};
use neil_blueprint::cluster_view::main_info;

const REPORT: &str = r#"{"main": {"name": "neil", "status": "active", "persona": "default", "memory_type": "full", "uptime_sec": 3725, "current_task": null, "pending_intentions": 3, "pid": 1234},
 "temps": [{"name": "temp-abc", "persona": "coder", "status": "idle", "uptime_sec": "45", "proposed_memories": 2}],
 "peers": [{"name": "humanizer-b", "ip": "10.0.0.3", "image": "img", "status": "running"}, {"name": "humanizer-a", "ip": "10.0.0.2", "status": "active"}, {"name": "solo", "ip": "10.0.0.9", "status": "stopped"}],
 "recent": [{"ts": "t1", "event": "spawn", "id": "temp-abc", "detail": "ok"}]}"#;

fn names(v: &[&str]) -> Vec<String> {
    v.iter().map(|x| x.to_string()).collect()
}

fn peer(name: &str, ip: &str) -> PeerInstance {
    PeerInstance { name: name.to_string(), ip: ip.to_string(), image: "?".to_string(), status: "active".to_string() }
}

#[test]
fn main_fields_read_from_main_object() {
    assert_eq!(extract_main_field(REPORT, "name"), Some("neil".to_string()));
    assert_eq!(extract_main_field(REPORT, "uptime_sec"), Some("3725".to_string()));
    assert_eq!(extract_main_field(REPORT, "current_task"), None);
    assert_eq!(extract_main_field(REPORT, "pid"), Some("1234".to_string()));
    assert_eq!(extract_main_field(REPORT, "missing"), None);
    assert_eq!(extract_main_field("{\"other\": 1}", "name"), None);
}

#[test]
fn main_info_defaults() {
    let m = main_info(REPORT);
    assert_eq!(m.name, "neil");
    assert_eq!(m.persona, "default");
    assert_eq!(m.memory, "full");
    assert_eq!(m.status, "active");
    assert_eq!(m.uptime, "3725");
    assert_eq!(m.pid, "1234");
    assert_eq!(m.task, None);
    assert_eq!(m.pending, "3");
    let e = main_info("{}");
    assert_eq!(e.name, "main");
    assert_eq!(e.status, "idle");
    assert_eq!(e.persona, "default");
    assert_eq!(e.memory, "full");
    assert_eq!(e.uptime, "0");
    assert_eq!(e.pending, "0");
}

#[test]
fn peers_parsed_with_defaults() {
    let p = parse_peers(REPORT);
    assert_eq!(p.len(), 3);
    assert_eq!(p[0].name, "humanizer-b");
    assert_eq!(p[0].ip, "10.0.0.3");
    assert_eq!(p[0].image, "img");
    assert_eq!(p[0].status, "running");
    assert_eq!(p[1].name, "humanizer-a");
    assert_eq!(p[1].image, "?");
    assert_eq!(p[2].status, "stopped");
    assert!(parse_peers("{\"main\": {}}").is_empty());
}

#[test]
fn temps_parsed_with_defaults() {
    let t = parse_temps(REPORT);
    assert_eq!(t.len(), 1);
    assert_eq!(t[0].name, "temp-abc");
    assert_eq!(t[0].persona, "coder");
    assert_eq!(t[0].memory_type, "ephemeral");
    assert_eq!(t[0].status, "idle");
    assert_eq!(t[0].uptime_sec, "45");
    assert_eq!(t[0].current_task, "");
    assert_eq!(t[0].proposed_memories, Some(2));
}

#[test]
fn recent_events_parsed() {
    let r = parse_recent(REPORT);
    assert_eq!(r.len(), 1);
    assert_eq!(r[0].ts, "t1");
    assert_eq!(r[0].event, "spawn");
    assert_eq!(r[0].id, "temp-abc");
    assert_eq!(r[0].detail, "ok");
}

#[test]
fn object_field_tokens() {
    assert_eq!(extract_obj_field("{\"a\": true}", "a"), Some("true".to_string()));
    assert_eq!(extract_obj_field("{\"a\": 12, \"b\": 3}", "a"), Some("12".to_string()));
    // letters beyond ASCII count as alphanumeric
    assert_eq!(extract_obj_field("{\"a\": é1-x.y!}", "a"), Some("é1-x.y".to_string()));
    assert_eq!(extract_obj_field("{\"a\": null}", "a"), None);
    assert_eq!(extract_obj_field("{\"a\": !}", "a"), None);
    assert_eq!(extract_obj_field("{\"a\": \"x y\"}", "a"), Some("x y".to_string()));
}

#[test]
fn string_and_number_after_key() {
    assert_eq!(extract_string(REPORT, "\"name\""), Some("neil".to_string()));
    assert_eq!(extract_string(r#"{"a":5,"b":"x"}"#, "\"a\""), None);
    assert_eq!(extract_string(r#"{"node_id":"n1"}"#, "\"node_id\""), Some("n1".to_string()));
    assert_eq!(extract_string(r#"{"t": "unterminated}"#, "\"t\""), None);
    assert_eq!(extract_number(REPORT, "\"pending_intentions\""), Some(3));
    assert_eq!(extract_number("{\"n\": -5}", "\"n\""), Some(5));
    assert_eq!(extract_number("{\"n\": x}", "\"n\""), None);
}

#[test]
fn tiers_by_width() {
    assert_eq!(pick_cluster_tier(39), ClusterTier::Tiny);
    assert_eq!(pick_cluster_tier(40), ClusterTier::Narrow);
    assert_eq!(pick_cluster_tier(69), ClusterTier::Narrow);
    assert_eq!(pick_cluster_tier(70), ClusterTier::Medium);
    assert_eq!(pick_cluster_tier(109), ClusterTier::Medium);
    assert_eq!(pick_cluster_tier(110), ClusterTier::Wide);
    assert_eq!(cards_per_row(ClusterTier::Wide), 4);
    assert_eq!(cards_per_row(ClusterTier::Medium), 2);
    assert_eq!(cards_per_row(ClusterTier::Narrow), 1);
    assert_eq!(cards_per_row(ClusterTier::Tiny), 1);
}

#[test]
fn grid_navigation() {
    assert_eq!(cluster_nav_down(0, 2, 4), 1);
    assert_eq!(cluster_nav_down(1, 2, 4), 3);
    assert_eq!(cluster_nav_down(3, 2, 4), 4);
    assert_eq!(cluster_nav_down(4, 2, 4), 4);
    assert_eq!(cluster_nav_down(0, 2, 0), 0);
    assert_eq!(cluster_nav_up(3, 2), 1);
    assert_eq!(cluster_nav_up(2, 2), 0);
    assert_eq!(cluster_nav_up(0, 2), 0);
    assert_eq!(cluster_nav_left(2, 2), 1);
    assert_eq!(cluster_nav_left(1, 2), 1);
    assert_eq!(cluster_nav_right(1, 2, 4), 2);
    assert_eq!(cluster_nav_right(2, 2, 4), 2);
    assert_eq!(cluster_nav_right(3, 2, 3), 3);
}

#[test]
fn navigation_down_then_up_returns() {
    // down then up from a card that is not on the last row comes back
    let d = cluster_nav_down(2, 4, 9);
    assert_eq!(d, 6);
    assert_eq!(cluster_nav_up(d, 4), 2);
}

#[test]
fn uptime_labels() {
    assert_eq!(fmt_duration("45"), "45s");
    assert_eq!(fmt_duration("125"), "2m5s");
    assert_eq!(fmt_duration("3725"), "1h2m");
    assert_eq!(fmt_duration("abc"), "0s");
    assert_eq!(fmt_duration(""), "0s");
}

#[test]
fn status_dots() {
    assert_eq!(status_dot("active"), "●");
    assert_eq!(status_dot("idle"), "○");
    assert_eq!(status_dot("dying"), "~");
    assert_eq!(status_dot("error"), "✗");
    assert_eq!(status_dot("weird"), "?");
}

#[test]
fn pair_partners() {
    let n = names(&["humanizer-b", "humanizer-a", "solo", "water-wet", "water-dry", "water-mid"]);
    assert_eq!(detect_pair_partner("humanizer-a", &n), Some("humanizer-b".to_string()));
    assert_eq!(detect_pair_partner("solo", &n), None);
    // three peers share the prefix: no pair
    assert_eq!(detect_pair_partner("water-wet", &n), None);
    assert_eq!(detect_pair_partner("-x", &n), None);
}

#[test]
fn grouping_puts_pairs_together() {
    let n = names(&["humanizer-b", "humanizer-a", "solo"]);
    assert_eq!(group_peers_by_pair(&n), vec![vec![1, 0], vec![2]]);
    let n2 = names(&["water-wet", "x", "water-dry"]);
    assert_eq!(group_peers_by_pair(&n2), vec![vec![2, 0], vec![1]]);
}

#[test]
fn peers_ordered_and_selected() {
    let ps = vec![peer("humanizer-b", "10.0.0.3"), peer("humanizer-a", "10.0.0.2"), peer("solo", "?")];
    let o = order_peers(&ps);
    let on: Vec<&str> = o.iter().map(|p| p.name.as_str()).collect();
    assert_eq!(on, vec!["humanizer-a", "humanizer-b", "solo"]);
    assert_eq!(peer_ip_at_selection(&ps, 0), None);
    assert_eq!(peer_ip_at_selection(&ps, 1), Some("10.0.0.2".to_string()));
    assert_eq!(peer_ip_at_selection(&ps, 2), Some("10.0.0.3".to_string()));
    assert_eq!(peer_ip_at_selection(&ps, 3), None);
    assert_eq!(peer_ip_at_selection(&ps, 4), None);
}

#[test]
fn children_count() {
    assert_eq!(cluster_children_count(None), 0);
    assert_eq!(cluster_children_count(Some("__ERROR__ boom")), 0);
    assert_eq!(cluster_children_count(Some(REPORT)), 3);
}
