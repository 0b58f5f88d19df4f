use vstd::prelude::*;

use std::collections::HashMap;

use crate::parser;
use crate::render;

verus! {

broadcast use vstd::std_specs::hash::group_hash_axioms;

/// One active queue entry observed from the platform on a run.
#[derive(Debug, Clone)]
pub struct Torrent {
    pub id: u32,
    pub name: String,
    /// Size in bytes.
    pub size: u64,
    /// Remaining time in milliseconds; 0 means unknown, infinite, or
    /// actively being processed.
    pub eta: u64,
}

/// One raw record of the platform's queue listing, reduced to the plain
/// values the engine reads.
pub struct QueueRecord {
    pub id: u32,
    pub size: u64,
    pub movie_title: Option<String>,
    pub series_title: Option<String>,
    pub timeleft: Option<String>,
}

/// The thresholds configured for a run, in normalized units.
#[derive(Debug, Clone, Copy)]
pub struct Thresholds {
    /// Byte-size ceiling; items at or above it are exempt from striking.
    pub size_threshold: u64,
    /// Millisecond floor; items whose remaining time is at or above it
    /// are strike-eligible.
    pub time_threshold: u64,
    /// Strike cap; reaching it triggers removal.
    pub strike_threshold: u32,
    /// Whether unknown (zero) remaining time counts as strike-eligible.
    pub aggressive_strikes: bool,
}

impl Thresholds {
    /// Resolves the thresholds from their human-readable forms, as the
    /// configuration supplies them.
    pub fn from_strings(
        size_threshold: &String,
        time_threshold: &String,
        strike_threshold: u32,
        aggressive_strikes: bool,
    ) -> (t: Thresholds)
        ensures
            t.size_threshold == parser::bytesize_bytes(size_threshold@),
            t.time_threshold == parser::hms_ms(time_threshold@),
            t.strike_threshold == strike_threshold,
            t.aggressive_strikes == aggressive_strikes,
    {
        Thresholds {
            size_threshold: parser::string_bytesize_to_bytes(size_threshold),
            time_threshold: parser::string_hms_to_ms(time_threshold),
            strike_threshold,
            aggressive_strikes,
        }
    }
}

/// The per-item verdict of one run.
#[derive(Debug, Clone, Copy, PartialEq, Eq, Structural)]
pub enum Status {
    /// Not started or infinite remaining time, exempt unless striking is
    /// aggressive.
    Pending,
    /// At or above the size threshold, permanently exempt.
    Ignored,
    /// Below the time threshold, nothing to do.
    Normal,
    /// Strike-eligible this run.
    Striked,
    /// At the strike cap; its removal is requested.
    Removed,
}

/// The report row emitted for one item.
#[derive(Debug, Clone)]
pub struct Outcome {
    pub id: u32,
    pub status: Status,
    /// "current/maximum" strike counts.
    pub strikes: String,
    /// Display name, truncated to 32 characters.
    pub name: String,
    /// Human-readable remaining time.
    pub eta: String,
    /// Size in gigabytes with two decimals.
    pub size: String,
}

/// The mathematical value of an Outcome.
pub ghost struct OutcomeModel {
    pub id: u32,
    pub status: Status,
    pub strikes: Seq<char>,
    pub name: Seq<char>,
    pub eta: Seq<char>,
    pub size: Seq<char>,
}

impl View for Outcome {
    type V = OutcomeModel;

    open spec fn view(&self) -> OutcomeModel {
        OutcomeModel {
            id: self.id,
            status: self.status,
            strikes: self.strikes@,
            name: self.name@,
            eta: self.eta@,
            size: self.size@,
        }
    }
}

pub open spec fn outcome_models(s: Seq<Outcome>) -> Seq<OutcomeModel> {
    s.map_values(|o: Outcome| o@)
}

/// The strike count the ledger holds for an id; an absent entry counts
/// as 0.
pub open spec fn strikes_before(ledger: Map<u32, u32>, id: u32) -> u32 {
    if ledger.contains_key(id) {
        ledger[id]
    } else {
        0u32
    }
}

/// Whether an item is strike-eligible: its remaining time is at or above
/// the threshold, or unknown while striking is aggressive.
pub open spec fn eligible(t: Torrent, env: Thresholds) -> bool {
    t.eta >= env.time_threshold || (t.eta == 0 && env.aggressive_strikes)
}

/// Whether a bypass rule exempts an item from strike evaluation this run.
pub open spec fn bypassed(t: Torrent, env: Thresholds) -> bool {
    (t.eta == 0 && !env.aggressive_strikes) || t.size >= env.size_threshold
}

/// The strike count an item holds after one run, starting from s0.
pub open spec fn strikes_after_item(t: Torrent, s0: u32, env: Thresholds) -> u32 {
    if !bypassed(t, env) && eligible(t, env) && s0 < env.strike_threshold {
        (s0 + 1) as u32
    } else {
        s0
    }
}

/// The status one run reports for an item whose ledger entry held s0,
/// following the ordered rule list: the pending bypass first, the size
/// bypass second, and removal overriding the tentative strike verdict.
pub open spec fn status_of(t: Torrent, s0: u32, env: Thresholds) -> Status {
    if t.eta == 0 && !env.aggressive_strikes {
        Status::Pending
    } else if t.size >= env.size_threshold {
        Status::Ignored
    } else if strikes_after_item(t, s0, env) >= env.strike_threshold {
        Status::Removed
    } else if eligible(t, env) {
        Status::Striked
    } else {
        Status::Normal
    }
}

/// The rendered remaining time: 0 is reported as "Infinite".
pub open spec fn eta_text(ms: u64) -> Seq<char> {
    if ms == 0 {
        "Infinite"@
    } else {
        parser::eta_text_of(ms)
    }
}

/// The full report row one run emits for an item whose ledger entry
/// held s0.
pub open spec fn outcome_of(t: Torrent, s0: u32, env: Thresholds) -> OutcomeModel {
    OutcomeModel {
        id: t.id,
        status: status_of(t, s0, env),
        strikes: render::strikes_text(strikes_after_item(t, s0, env), env.strike_threshold),
        name: render::truncated_name(t.name@),
        eta: eta_text(t.eta),
        size: render::gb_text(t.size),
    }
}

/// The ledger after one item is processed: its entry exists afterwards,
/// holding the item's new strike count.
pub open spec fn step_ledger(ledger: Map<u32, u32>, t: Torrent, env: Thresholds) -> Map<u32, u32> {
    ledger.insert(t.id, strikes_after_item(t, strikes_before(ledger, t.id), env))
}

/// The ledger after a whole snapshot is processed in order.
pub open spec fn ledger_after(items: Seq<Torrent>, ledger: Map<u32, u32>, env: Thresholds) -> Map<
    u32,
    u32,
>
    decreases items.len(),
{
    if items.len() == 0 {
        ledger
    } else {
        ledger_after(items.skip(1), step_ledger(ledger, items[0], env), env)
    }
}

/// The report rows a whole snapshot yields, in snapshot order.
pub open spec fn outcomes_after(
    items: Seq<Torrent>,
    ledger: Map<u32, u32>,
    env: Thresholds,
) -> Seq<OutcomeModel>
    decreases items.len(),
{
    if items.len() == 0 {
        Seq::empty()
    } else {
        seq![outcome_of(items[0], strikes_before(ledger, items[0].id), env)] + outcomes_after(
            items.skip(1),
            step_ledger(ledger, items[0], env),
            env,
        )
    }
}

/// The decision engine: evaluates one queue snapshot against the strike
/// ledger and the thresholds, updates the ledger, and reports one outcome
/// per item in snapshot order. The caller requests deletion for every
/// outcome whose status is Removed.
pub fn process(queue_items: Vec<Torrent>, strikelist: &mut HashMap<u32, u32>, env: &Thresholds) -> (outcomes: Vec<
    Outcome,
>)
    ensures
        final(strikelist)@ == ledger_after(queue_items@, old(strikelist)@, *env),
        outcome_models(outcomes@) == outcomes_after(queue_items@, old(strikelist)@, *env),
{
    let ghost items = queue_items@;
    let ghost orig = strikelist@;
    let mut outcomes: Vec<Outcome> = Vec::new();
    let mut idx: usize = 0;
    proof {
        assert(items.skip(0) =~= items);
        assert(outcome_models(outcomes@) =~= Seq::<OutcomeModel>::empty());
    }
    while idx < queue_items.len()
        invariant
            idx <= queue_items.len(),
            queue_items@ == items,
            ledger_after(items, orig, *env) == ledger_after(
                items.skip(idx as int),
                strikelist@,
                *env,
            ),
            outcomes_after(items, orig, *env) == outcome_models(outcomes@) + outcomes_after(
                items.skip(idx as int),
                strikelist@,
                *env,
            ),
        decreases queue_items.len() - idx,
    {
        let ghost pre = strikelist@;
        let torrent = &queue_items[idx];
        let id = torrent.id;

        // Ensure a ledger entry exists and read the current strike count.
        let s0: u32 = match strikelist.get(&id) {
            Some(s) => *s,
            None => {
                strikelist.insert(id, 0);
                0
            },
        };
        proof {
            assert(s0 == strikes_before(pre, id));
        }

        let new_strikes: u32;
        let status: Status;
        if torrent.eta == 0 && !env.aggressive_strikes {
            // The item is not started or its remaining time is unknown.
            new_strikes = s0;
            status = Status::Pending;
        } else if torrent.size >= env.size_threshold {
            // The item is deliberately large; it is never striked.
            new_strikes = s0;
            status = Status::Ignored;
        } else {
            let elig = torrent.eta >= env.time_threshold || (torrent.eta == 0
                && env.aggressive_strikes);
            if elig && s0 < env.strike_threshold {
                new_strikes = s0 + 1;
                strikelist.insert(id, new_strikes);
            } else {
                new_strikes = s0;
            }
            if new_strikes >= env.strike_threshold {
                // The strike cap is met: the caller will request removal.
                status = Status::Removed;
            } else if elig {
                status = Status::Striked;
            } else {
                status = Status::Normal;
            }
        }
        proof {
            assert(new_strikes == strikes_after_item(items[idx as int], s0, *env));
            assert(status == status_of(items[idx as int], s0, *env));
            assert(strikelist@ =~= step_ledger(pre, items[idx as int], *env));
        }

        let outcome = Outcome {
            id,
            status,
            strikes: render::strikes_to_string(new_strikes, env.strike_threshold),
            name: render::truncate_name(&torrent.name),
            eta: parser::ms_to_eta_string(&torrent.eta),
            size: render::size_to_gb_string(torrent.size),
        };
        proof {
            assert(outcome@ == outcome_of(items[idx as int], s0, *env));
            assert(items.skip(idx as int)[0] == items[idx as int]);
            assert(items.skip(idx as int).skip(1) =~= items.skip(idx as int + 1));
            assert(outcome_models(outcomes@.push(outcome)) =~= outcome_models(outcomes@) + seq![
                outcome@,
            ]);
        }
        outcomes.push(outcome);
        idx += 1;
    }
    proof {
        assert(items.skip(items.len() as int) =~= Seq::<Torrent>::empty());
        assert(outcome_models(outcomes@) + Seq::<OutcomeModel>::empty() =~= outcome_models(
            outcomes@,
        ));
    }
    outcomes
}

/// The display name a raw record yields for a platform tag: radarr reads
/// the nested movie title, sonarr the nested series title, and anything
/// else, or a missing title, yields "Unknown".
pub open spec fn record_name(rec: QueueRecord, platform: Seq<char>) -> Seq<char> {
    if platform == "radarr"@ {
        match rec.movie_title {
            Some(t) => t@,
            None => "Unknown"@,
        }
    } else if platform == "sonarr"@ {
        match rec.series_title {
            Some(t) => t@,
            None => "Unknown"@,
        }
    } else {
        "Unknown"@
    }
}

/// The remaining time a raw record yields: its human-readable time-left
/// field converted to milliseconds, with an absent field counting as 0.
pub open spec fn record_eta(rec: QueueRecord) -> u64 {
    match rec.timeleft {
        Some(tl) => parser::hms_ms(tl@),
        None => 0u64,
    }
}

/// Normalizes the platform's raw queue records into canonical items.
pub fn canonicalize(records: Vec<QueueRecord>, platform: &String) -> (torrents: Vec<Torrent>)
    ensures
        torrents@.len() == records@.len(),
        forall|i: int|
            0 <= i < records@.len() ==> {
                &&& (#[trigger] torrents@[i]).id == records@[i].id
                &&& torrents@[i].size == records@[i].size
                &&& torrents@[i].name@ == record_name(records@[i], platform@)
                &&& torrents@[i].eta == record_eta(records@[i])
            },
{
    let radarr = String::from_str("radarr");
    let sonarr = String::from_str("sonarr");
    let is_radarr = platform.eq(&radarr);
    let is_sonarr = platform.eq(&sonarr);
    let mut torrents: Vec<Torrent> = Vec::new();
    let mut i: usize = 0;
    while i < records.len()
        invariant
            i <= records.len(),
            torrents@.len() == i,
            is_radarr == (platform@ == "radarr"@),
            is_sonarr == (platform@ == "sonarr"@),
            forall|j: int|
                0 <= j < i ==> {
                    &&& (#[trigger] torrents@[j]).id == records@[j].id
                    &&& torrents@[j].size == records@[j].size
                    &&& torrents@[j].name@ == record_name(records@[j], platform@)
                    &&& torrents@[j].eta == record_eta(records@[j])
                },
        decreases records.len() - i,
    {
        let rec = &records[i];
        let name: String = if is_radarr {
            match &rec.movie_title {
                Some(t) => t.clone(),
                None => String::from_str("Unknown"),
            }
        } else if is_sonarr {
            match &rec.series_title {
                Some(t) => t.clone(),
                None => String::from_str("Unknown"),
            }
        } else {
            String::from_str("Unknown")
        };
        let eta: u64 = match &rec.timeleft {
            Some(tl) => parser::string_hms_to_ms(tl),
            None => 0,
        };
        torrents.push(
            Torrent {
                id: rec.id,
                name,
                size: rec.size,
                eta,
            },
        );
        i += 1;
    }
    torrents
}

} // verus!
