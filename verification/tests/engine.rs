use std::collections::HashMap;

use striker::queue::{canonicalize, process, QueueRecord, Status, Thresholds, Torrent};

fn thresholds() -> Thresholds {
    // 1h time floor, 50 GB size ceiling, 3 strikes, no aggressive mode.
    Thresholds {
        size_threshold: 50_000_000_000,
        time_threshold: 3_600_000,
        strike_threshold: 3,
        aggressive_strikes: false,
    }
}

fn item(id: u32, size: u64, eta: u64) -> Torrent {
    Torrent {
        id,
        name: String::from("Some Download"),
        size,
        eta,
    }
}

#[test]
fn thresholds_resolve_from_strings() {
    let t = Thresholds::from_strings(
        &String::from("50 GB"),
        &String::from("01:00:00"),
        3,
        false,
    );
    assert_eq!(t.size_threshold, 50_000_000_000);
    assert_eq!(t.time_threshold, 3_600_000);
    assert_eq!(t.strike_threshold, 3);
    assert!(!t.aggressive_strikes);
}

#[test]
fn concrete_four_run_scenario() {
    let env = thresholds();
    let mut ledger: HashMap<u32, u32> = HashMap::new();
    let mut strikes_seen: Vec<String> = Vec::new();
    let mut statuses: Vec<Status> = Vec::new();
    for _ in 0..4 {
        let outcomes = process(vec![item(1, 1_000_000_000, 7_200_000)], &mut ledger, &env);
        assert_eq!(outcomes.len(), 1);
        strikes_seen.push(outcomes[0].strikes.clone());
        statuses.push(outcomes[0].status);
    }
    assert_eq!(strikes_seen, vec!["1/3", "2/3", "3/3", "3/3"]);
    assert_eq!(
        statuses,
        vec![Status::Striked, Status::Striked, Status::Removed, Status::Removed]
    );
    assert_eq!(ledger.get(&1), Some(&3));
}

#[test]
fn unchanged_slow_item_stays_normal() {
    let env = thresholds();
    let mut ledger: HashMap<u32, u32> = HashMap::new();
    for _ in 0..5 {
        let outcomes = process(vec![item(7, 1_000_000_000, 60_000)], &mut ledger, &env);
        assert_eq!(outcomes[0].status, Status::Normal);
        assert_eq!(ledger.get(&7), Some(&0));
    }
}

#[test]
fn pending_takes_precedence_over_size() {
    let env = thresholds();
    let mut ledger: HashMap<u32, u32> = HashMap::new();
    // Zero remaining time and above the size ceiling: Pending wins.
    let outcomes = process(vec![item(2, 60_000_000_000, 0)], &mut ledger, &env);
    assert_eq!(outcomes[0].status, Status::Pending);
    assert_eq!(ledger.get(&2), Some(&0));
}

#[test]
fn pending_item_striked_in_aggressive_mode() {
    let mut env = thresholds();
    env.aggressive_strikes = true;
    let mut ledger: HashMap<u32, u32> = HashMap::new();
    let outcomes = process(vec![item(3, 1_000_000_000, 0)], &mut ledger, &env);
    assert_eq!(outcomes[0].status, Status::Striked);
    assert_eq!(ledger.get(&3), Some(&1));
}

#[test]
fn large_item_never_accumulates_strikes() {
    let env = thresholds();
    let mut ledger: HashMap<u32, u32> = HashMap::new();
    for _ in 0..6 {
        // Above the size ceiling and otherwise strike-eligible.
        let outcomes = process(vec![item(4, 50_000_000_000, 7_200_000)], &mut ledger, &env);
        assert_eq!(outcomes[0].status, Status::Ignored);
        assert_eq!(ledger.get(&4), Some(&0));
    }
}

#[test]
fn empty_snapshot_leaves_ledger_alone() {
    let env = thresholds();
    let mut ledger: HashMap<u32, u32> = HashMap::new();
    ledger.insert(9, 2);
    let outcomes = process(vec![], &mut ledger, &env);
    assert!(outcomes.is_empty());
    // The engine does not prune entries of items no longer in the queue.
    assert_eq!(ledger.get(&9), Some(&2));
}

#[test]
fn removal_repeats_while_entry_stays_at_cap() {
    let env = thresholds();
    let mut ledger: HashMap<u32, u32> = HashMap::new();
    ledger.insert(5, 3);
    // Already at the cap: removed again even though not eligible this run.
    let outcomes = process(vec![item(5, 1_000_000_000, 60_000)], &mut ledger, &env);
    assert_eq!(outcomes[0].status, Status::Removed);
    assert_eq!(outcomes[0].strikes, "3/3");
    assert_eq!(ledger.get(&5), Some(&3));
}

#[test]
fn outcome_rendering() {
    let env = thresholds();
    let mut ledger: HashMap<u32, u32> = HashMap::new();
    let long_name = "An Extremely Long Download Title That Overflows";
    let outcomes = process(
        vec![Torrent {
            id: 6,
            name: String::from(long_name),
            size: 1_234_567_890,
            eta: 7_200_000,
        }],
        &mut ledger,
        &env,
    );
    let o = &outcomes[0];
    assert_eq!(o.id, 6);
    assert_eq!(o.name, long_name.chars().take(32).collect::<String>());
    assert_eq!(o.name.chars().count(), 32);
    assert_eq!(o.size, "1.23 GB");
    assert_eq!(o.eta, "2h");
    assert_eq!(o.strikes, "1/3");
}

#[test]
fn gb_rendering_rounds_to_hundredths() {
    let env = thresholds();
    let mut ledger: HashMap<u32, u32> = HashMap::new();
    let outcomes = process(
        vec![item(10, 1_000_000_000, 0), item(11, 15_000_000, 0), item(12, 0, 0)],
        &mut ledger,
        &env,
    );
    assert_eq!(outcomes[0].size, "1.00 GB");
    assert_eq!(outcomes[1].size, "0.02 GB");
    assert_eq!(outcomes[2].size, "0.00 GB");
}

#[test]
fn items_processed_in_snapshot_order() {
    let env = thresholds();
    let mut ledger: HashMap<u32, u32> = HashMap::new();
    let outcomes = process(
        vec![item(21, 1_000_000_000, 7_200_000), item(22, 1_000_000_000, 60_000)],
        &mut ledger,
        &env,
    );
    assert_eq!(outcomes.len(), 2);
    assert_eq!(outcomes[0].id, 21);
    assert_eq!(outcomes[0].status, Status::Striked);
    assert_eq!(outcomes[1].id, 22);
    assert_eq!(outcomes[1].status, Status::Normal);
}

#[test]
fn duplicate_ids_share_one_ledger_entry() {
    let env = thresholds();
    let mut ledger: HashMap<u32, u32> = HashMap::new();
    let outcomes = process(
        vec![item(30, 1_000_000_000, 7_200_000), item(30, 1_000_000_000, 7_200_000)],
        &mut ledger,
        &env,
    );
    assert_eq!(outcomes[0].strikes, "1/3");
    assert_eq!(outcomes[1].strikes, "2/3");
    assert_eq!(ledger.get(&30), Some(&2));
}

fn record(id: u32, movie: Option<&str>, series: Option<&str>, timeleft: Option<&str>) -> QueueRecord {
    QueueRecord {
        id,
        size: 1_000_000_000,
        movie_title: movie.map(String::from),
        series_title: series.map(String::from),
        timeleft: timeleft.map(String::from),
    }
}

#[test]
fn canonicalize_radarr_reads_movie_title() {
    let torrents = canonicalize(
        vec![record(1, Some("A Movie"), None, Some("01:30:00"))],
        &String::from("radarr"),
    );
    assert_eq!(torrents.len(), 1);
    assert_eq!(torrents[0].id, 1);
    assert_eq!(torrents[0].name, "A Movie");
    assert_eq!(torrents[0].eta, (3600 + 30 * 60) * 1000);
}

#[test]
fn canonicalize_sonarr_reads_series_title() {
    let torrents = canonicalize(
        vec![record(2, None, Some("A Series"), None)],
        &String::from("sonarr"),
    );
    assert_eq!(torrents[0].name, "A Series");
    // An absent time-left field counts as unknown time.
    assert_eq!(torrents[0].eta, 0);
}

#[test]
fn canonicalize_unknown_tag_or_missing_title() {
    let torrents = canonicalize(
        vec![record(3, Some("A Movie"), None, None)],
        &String::from("lidarr"),
    );
    assert_eq!(torrents[0].name, "Unknown");
    let torrents = canonicalize(vec![record(4, None, None, None)], &String::from("radarr"));
    assert_eq!(torrents[0].name, "Unknown");
}
