//! Reading and writing saved layouts.

use vstd::prelude::*;
use vstd::string::*;
use crate::clones::clone_numbers;
use crate::clones;
use crate::model::{AppConfig, ConfigView, LayoutView, MonitorConfig, MonitorLayout, MonitorView, SourceKey};
use crate::model;
use crate::order;

verus! {

// ---------------------------------------------------------------------------
// Clone groups of older files
// ---------------------------------------------------------------------------

/// The largest clone group among the first `count` monitors, or zero.
pub open spec fn largest_group(monitors: Seq<MonitorView>, count: int) -> u32
    decreases count,
{
    if count <= 0 {
        0
    } else {
        let before = largest_group(monitors, count - 1);
        match monitors[count - 1].clone_group {
            Some(group) => if group > before {
                group
            } else {
                before
            },
            None => before,
        }
    }
}

/// The source of each monitor that is on and in no clone group.
pub open spec fn ungrouped_sources(monitors: Seq<MonitorView>) -> Seq<Option<SourceKey>> {
    monitors.map_values(
        |monitor: MonitorView|
            if monitor.enabled && monitor.clone_group is None {
                Some(monitor.source_key())
            } else {
                None
            },
    )
}

/// A monitor in a clone group, where it is to get one.
pub open spec fn regrouped(monitor: MonitorView, group: Option<u32>) -> MonitorView {
    match group {
        Some(number) => MonitorView { clone_group: Some(number), ..monitor },
        None => monitor,
    }
}

/// The number of the first new group: one more than the largest there is.
pub open spec fn first_new_group(monitors: Seq<MonitorView>) -> u32 {
    clones::counted_up(largest_group(monitors, monitors.len() as int), 1)
}

/// The monitors of a layout after those that are on, in no clone group and on
/// a common source were put into groups. Older files hold clones that way.
pub open spec fn migrated_monitors(monitors: Seq<MonitorView>) -> Seq<MonitorView> {
    Seq::new(
        monitors.len(),
        |i: int|
            regrouped(
                monitors[i],
                clones::clone_number(
                    ungrouped_sources(monitors),
                    first_new_group(monitors),
                    i,
                ),
            ),
    )
}

/// A layout with its clones grouped.
pub open spec fn migrated_layout(layout: LayoutView) -> LayoutView {
    LayoutView { monitors: migrated_monitors(layout.monitors), ..layout }
}

/// Saved layouts with their clones grouped. The recovery snapshot is as new as
/// the program that wrote it and needs nothing.
pub open spec fn migrated(config: ConfigView) -> ConfigView {
    ConfigView {
        layouts: config.layouts.map_values(|layout: LayoutView| migrated_layout(layout)),
        ..config
    }
}

proof fn lemma_largest_group(monitors: Seq<MonitorView>, count: int, at: int)
    requires
        0 <= at < count <= monitors.len(),
    ensures
        monitors[at].clone_group matches Some(group) ==> group <= largest_group(monitors, count),
    decreases count,
{
    if at < count - 1 {
        lemma_largest_group(monitors, count - 1, at);
    }
}

/// A monitor keeps the group that it has, and new groups are none that the
/// layout already has, as long as the numbers suffice.
pub proof fn lemma_migration_keeps_groups(monitors: Seq<MonitorView>, old: int, new: int)
    requires
        0 <= old < monitors.len(),
        0 <= new < monitors.len(),
        monitors[old].clone_group is Some,
        monitors[new].clone_group is None,
        largest_group(monitors, monitors.len() as int) + monitors.len() < u32::MAX,
    ensures
        migrated_monitors(monitors)[old] == monitors[old],
        migrated_monitors(monitors)[new].clone_group matches Some(group) ==> Some(group)
            != monitors[old].clone_group,
{
    let sources = ungrouped_sources(monitors);
    assert(sources[old] is None);
    assert(old != new);
    lemma_largest_group(monitors, monitors.len() as int, old);
    clones::lemma_clone_numbers(sources, first_new_group(monitors), new, old);
}

proof fn lemma_migrated_sources(monitors: Seq<MonitorView>, at: int)
    requires
        0 <= at < monitors.len(),
    ensures
        !clones::is_shared(ungrouped_sources(migrated_monitors(monitors)), at),
{
    let before = ungrouped_sources(monitors);
    let after = ungrouped_sources(migrated_monitors(monitors));
    if clones::is_shared(after, at) {
        let other = choose|other: int|
            0 <= other < after.len() && other != at && #[trigger] after[other] == after[at];
        assert(before[at] == after[at]);
        assert(before[other] == after[other]);
        assert(clones::is_shared(before, at));
    }
}

/// Grouping the clones a second time changes nothing.
pub proof fn lemma_migration_is_idempotent(monitors: Seq<MonitorView>)
    ensures
        migrated_monitors(migrated_monitors(monitors)) == migrated_monitors(monitors),
{
    let once = migrated_monitors(monitors);
    assert forall|i: int| 0 <= i < once.len() implies #[trigger] migrated_monitors(once)[i]
        == once[i] by {
        lemma_migrated_sources(monitors, i);
    }
    assert(migrated_monitors(once) =~= once);
}

proof fn lemma_largest_is_reached(monitors: Seq<MonitorView>, count: int)
    requires
        0 <= count <= monitors.len(),
    ensures
        largest_group(monitors, count) == 0 || exists|i: int|
            0 <= i < count && (#[trigger] monitors[i]).clone_group == Some(
                largest_group(monitors, count),
            ),
    decreases count,
{
    if count > 0 {
        lemma_largest_is_reached(monitors, count - 1);
        let before = largest_group(monitors, count - 1);
        if largest_group(monitors, count) == before && before != 0 {
            let i = choose|i: int|
                0 <= i < count - 1 && (#[trigger] monitors[i]).clone_group == Some(before);
            assert(monitors[i].clone_group == Some(largest_group(monitors, count)));
        } else if largest_group(monitors, count) != before {
            assert(monitors[count - 1].clone_group == Some(largest_group(monitors, count)));
        }
    }
}

/// Layouts of older files: monitors that are on, in no clone group and on one
/// source become clones of each other, and of no others. A monitor that is off,
/// or in a group, or alone on its source stays as it is, and nothing but clone
/// groups ever changes.
pub proof fn lemma_migrated_monitors(monitors: Seq<MonitorView>, a: int, b: int)
    requires
        0 <= a < monitors.len(),
        0 <= b < monitors.len(),
        a != b,
        largest_group(monitors, monitors.len() as int) + monitors.len() < u32::MAX,
    ensures
        ({
            let after = migrated_monitors(monitors);
            let free = |i: int| monitors[i].enabled && monitors[i].clone_group is None;
            let together = monitors[a].source_adapter_low == monitors[b].source_adapter_low
                && monitors[a].source_adapter_high == monitors[b].source_adapter_high
                && monitors[a].source_id == monitors[b].source_id;
            &&& after.len() == monitors.len()
            &&& monitors[a] == (MonitorView {
                clone_group: monitors[a].clone_group,
                ..after[a]
            })
            &&& !free(a) ==> after[a].clone_group == monitors[a].clone_group
            &&& free(a) && free(b) && together ==> after[a].clone_group is Some
                && after[a].clone_group == after[b].clone_group
            &&& free(a) && after[a].clone_group is Some && after[a].clone_group
                == after[b].clone_group ==> free(b) && together
            &&& free(a) && (forall|i: int|
                0 <= i < monitors.len() && i != a && (#[trigger] monitors[i]).enabled
                    && monitors[i].clone_group is None ==> (
                    monitors[i].source_adapter_low,
                    monitors[i].source_adapter_high,
                    monitors[i].source_id,
                ) != (
                    monitors[a].source_adapter_low,
                    monitors[a].source_adapter_high,
                    monitors[a].source_id,
                )) ==> after[a].clone_group is None
        }),
{
    let sources = ungrouped_sources(monitors);
    let start = first_new_group(monitors);
    clones::lemma_clone_numbers(sources, start, a, b);
    clones::lemma_clone_numbers(sources, start, b, a);
    clones::lemma_clones_share_a_source(sources, start, a);
    clones::lemma_clones_share_a_source(sources, start, b);
    if monitors[b].clone_group is Some {
        lemma_largest_group(monitors, monitors.len() as int, b);
    }
    if clones::clone_number(sources, start, a) is Some {
        let other = choose|other: int|
            0 <= other < sources.len() && other != a && #[trigger] sources[other] == sources[a];
        assert(monitors[other].enabled && monitors[other].clone_group is None);
    }
}

/// The first group that is made is numbered one more than the largest there is,
/// from one on.
pub proof fn lemma_first_new_group(monitors: Seq<MonitorView>, i: int)
    requires
        0 <= i < monitors.len(),
        largest_group(monitors, monitors.len() as int) < u32::MAX,
    ensures
        monitors[i].clone_group matches Some(group) ==> group < first_new_group(monitors),
        first_new_group(monitors) == 1 || exists|k: int|
            0 <= k < monitors.len() && (#[trigger] monitors[k]).clone_group == Some(
                (first_new_group(monitors) - 1) as u32,
            ),
{
    lemma_largest_group(monitors, monitors.len() as int, i);
    lemma_largest_is_reached(monitors, monitors.len() as int);
}

/// Migrating touches the monitors of the saved layouts and nothing else.
pub proof fn lemma_migrated(config: ConfigView, i: int)
    requires
        0 <= i < config.layouts.len(),
    ensures
        migrated(config).layouts.len() == config.layouts.len(),
        migrated(config).last_known_working == config.last_known_working,
        ({
            let (before, after) = (config.layouts[i], migrated(config).layouts[i]);
            &&& after.monitors == migrated_monitors(before.monitors)
            &&& after.name == before.name
            &&& after.hotkey == before.hotkey
            &&& after.controller_hotkey == before.controller_hotkey
            &&& after.playback_device == before.playback_device
            &&& after.microphone_device == before.microphone_device
        }),
{
}

fn next_group(monitors: &Vec<MonitorConfig>) -> (r: u32)
    ensures
        r == first_new_group(order::views(monitors@)),
{
    let ghost all = order::views(monitors@);
    let mut largest: u32 = 0;
    let mut at: usize = 0;
    while at < monitors.len()
        invariant
            at <= monitors@.len(),
            all == order::views(monitors@),
            largest == largest_group(all, at as int),
        decreases monitors@.len() - at,
    {
        assert(all[at as int] == monitors@[at as int]@);
        if let Some(group) = monitors[at].clone_group {
            if group > largest {
                largest = group;
            }
        }
        at = at + 1;
    }
    assert(all.len() == monitors@.len());
    largest.saturating_add(1)
}

fn migrate_layout(layout: &MonitorLayout) -> (r: MonitorLayout)
    ensures
        r@ == migrated_layout(layout@),
{
    let ghost all = layout@.monitors;
    let ghost sources = ungrouped_sources(all);
    let start = next_group(&layout.monitors);
    let mut keys: Vec<Option<SourceKey>> = Vec::new();
    let mut at: usize = 0;
    while at < layout.monitors.len()
        invariant
            at <= layout.monitors@.len(),
            all == order::views(layout.monitors@),
            sources == ungrouped_sources(all),
            keys@ == sources.take(at as int),
        decreases layout.monitors@.len() - at,
    {
        let monitor = &layout.monitors[at];
        let key = if monitor.enabled && monitor.clone_group.is_none() {
            Some(monitor.source_key())
        } else {
            None
        };
        keys.push(key);
        proof {
            assert(all[at as int] == monitor@);
            assert(sources.take(at + 1) =~= sources.take(at as int).push(key));
        }
        at = at + 1;
    }
    proof {
        assert(sources.take(sources.len() as int) =~= sources);
    }
    let numbers = clone_numbers(&keys, start);
    let ghost after = migrated_monitors(all);
    let mut copy = layout.clone();
    let mut monitors: Vec<MonitorConfig> = Vec::new();
    let mut at: usize = 0;
    while at < layout.monitors.len()
        invariant
            at <= layout.monitors@.len(),
            all == order::views(layout.monitors@),
            sources == ungrouped_sources(all),
            start == first_new_group(all),
            numbers@ == clones::clone_numbering(sources, start),
            after == migrated_monitors(all),
            order::views(monitors@) == after.take(at as int),
        decreases layout.monitors@.len() - at,
    {
        let mut monitor = layout.monitors[at].clone();
        assert(monitor@ == all[at as int]);
        if numbers[at].is_some() {
            monitor.clone_group = numbers[at];
        }
        let ghost before = monitors@;
        monitors.push(monitor);
        proof {
            assert(monitor@ == after[at as int]);
            assert(order::views(monitors@) =~= order::views(before).push(monitor@));
            assert(after.take(at + 1) =~= after.take(at as int).push(monitor@));
        }
        at = at + 1;
    }
    proof {
        assert(after.take(after.len() as int) =~= after);
    }
    copy.monitors = monitors;
    copy
}

/// Groups the clones of layouts that were saved before there were groups.
pub fn migrate_legacy_clone_groups(config: &mut AppConfig)
    ensures
        final(config)@ == migrated(old(config)@),
{
    let ghost all = config@.layouts;
    let ghost after = migrated(config@).layouts;
    let mut layouts: Vec<MonitorLayout> = Vec::new();
    let mut at: usize = 0;
    while at < config.layouts.len()
        invariant
            at <= config.layouts@.len(),
            all == order::views(config.layouts@),
            config@ == old(config)@,
            after == migrated(config@).layouts,
            order::views(layouts@) == after.take(at as int),
        decreases config.layouts@.len() - at,
    {
        let layout = migrate_layout(&config.layouts[at]);
        let ghost before = layouts@;
        layouts.push(layout);
        proof {
            assert(all[at as int] == config.layouts@[at as int]@);
            assert(order::views(layouts@) =~= order::views(before).push(layout@));
            assert(after.take(at + 1) =~= after.take(at as int).push(layout@));
        }
        at = at + 1;
    }
    proof {
        assert(after.take(after.len() as int) =~= after);
    }
    config.layouts = layouts;
}

// ---------------------------------------------------------------------------
// Files
// ---------------------------------------------------------------------------

/// What came of looking for a file.
#[derive(Debug)]
pub enum StoredConfig {
    /// There is no such file.
    Missing,
    /// The file was read.
    Parsed(AppConfig),
    /// The file could not be read, and why.
    Failed(String),
}

/// The contents of a [`StoredConfig`].
#[verifier::ext_equal]
pub enum StoredView {
    Missing,
    Parsed(ConfigView),
    Failed(Seq<char>),
}

impl View for StoredConfig {
    type V = StoredView;

    open spec fn view(&self) -> StoredView {
        match self {
            StoredConfig::Missing => StoredView::Missing,
            StoredConfig::Parsed(config) => StoredView::Parsed(config@),
            StoredConfig::Failed(error) => StoredView::Failed(error@),
        }
    }
}

/// No layouts and no snapshot.
pub open spec fn empty_config() -> ConfigView {
    ConfigView { layouts: Seq::empty(), last_known_working: None }
}

/// What is loaded, given the file and its backup: the file where it can be
/// read, otherwise the backup, otherwise nothing where neither was ever
/// written.
pub open spec fn loaded(primary: StoredView, backup: StoredView) -> Result<ConfigView, Seq<char>> {
    match primary {
        StoredView::Parsed(config) => Ok(migrated(config)),
        StoredView::Missing => match backup {
            StoredView::Missing => Ok(empty_config()),
            StoredView::Parsed(config) => Ok(migrated(config)),
            StoredView::Failed(error) => Err(
                "primary config is missing and backup recovery failed: "@ + error,
            ),
        },
        StoredView::Failed(primary_error) => match backup {
            StoredView::Missing => Err(primary_error),
            StoredView::Parsed(config) => Ok(migrated(config)),
            StoredView::Failed(error) => Err(
                "primary config failed ("@ + primary_error
                    + ") and backup recovery also failed: "@ + error,
            ),
        },
    }
}

/// A readable file is never passed over, and a readable backup is used
/// whenever the file is missing or unreadable.
pub proof fn lemma_backup_recovers(primary: StoredView, backup: StoredView)
    ensures
        primary matches StoredView::Parsed(config) ==> loaded(primary, backup) == Ok::<
            ConfigView,
            Seq<char>,
        >(migrated(config)),
        backup is Parsed ==> loaded(primary, backup) is Ok,
        !(primary is Parsed) ==> (backup matches StoredView::Parsed(config) ==> loaded(
            primary,
            backup,
        ) == Ok::<ConfigView, Seq<char>>(migrated(config))),
{
}

/// What is loaded in each case: the file where it reads, otherwise the backup
/// where that reads; an empty configuration where neither was ever written; and
/// otherwise what went wrong.
pub proof fn lemma_loaded(file: ConfigView, other: StoredView, why: Seq<char>, and: Seq<char>)
    ensures
        loaded(StoredView::Parsed(file), other) == Ok::<ConfigView, Seq<char>>(migrated(file)),
        loaded(StoredView::Missing, StoredView::Parsed(file)) == Ok::<ConfigView, Seq<char>>(
            migrated(file),
        ),
        loaded(StoredView::Failed(why), StoredView::Parsed(file)) == Ok::<ConfigView, Seq<char>>(
            migrated(file),
        ),
        loaded(StoredView::Missing, StoredView::Missing) matches Ok(config)
            && config.layouts.len() == 0 && config.last_known_working is None,
        loaded(StoredView::Failed(why), StoredView::Missing) == Err::<ConfigView, Seq<char>>(why),
        loaded(StoredView::Missing, StoredView::Failed(and)) == Err::<ConfigView, Seq<char>>(
            "primary config is missing and backup recovery failed: "@ + and,
        ),
        loaded(StoredView::Failed(why), StoredView::Failed(and)) == Err::<ConfigView, Seq<char>>(
            "primary config failed ("@ + why + ") and backup recovery also failed: "@ + and,
        ),
{
}

/// A save keeps the file that it replaces as the backup where that could be
/// read; an unreadable file never replaces a backup.
pub proof fn lemma_backup_after_save(config: ConfigView, why: Seq<char>, backup: StoredView)
    ensures
        backup_after_save(StoredView::Parsed(config), backup) == StoredView::Parsed(config),
        backup_after_save(StoredView::Failed(why), backup) == backup,
        backup_after_save(StoredView::Missing, backup) == backup,
{
}

/// The backup after a save, given the file and the backup before it.
pub open spec fn backup_after_save(existing: StoredView, backup: StoredView) -> StoredView {
    if existing is Parsed {
        existing
    } else {
        backup
    }
}

/// Where writing the file is interrupted, what it held before is loaded from
/// the backup.
pub proof fn lemma_interrupted_save(
    existing: ConfigView,
    backup: StoredView,
    error: Seq<char>,
)
    ensures
        loaded(
            StoredView::Failed(error),
            backup_after_save(StoredView::Parsed(existing), backup),
        ) == Ok::<ConfigView, Seq<char>>(migrated(existing)),
        loaded(
            StoredView::Missing,
            backup_after_save(StoredView::Parsed(existing), backup),
        ) == Ok::<ConfigView, Seq<char>>(migrated(existing)),
{
}

/// The file and its backup.
#[verifier::ext_equal]
pub struct DiskView {
    pub primary: StoredView,
    pub backup: StoredView,
}

impl DiskView {
    /// After a save: the file reads as what was saved, and a file that could
    /// be read before is the backup.
    pub open spec fn saved(self, config: ConfigView) -> DiskView {
        DiskView {
            primary: StoredView::Parsed(config),
            backup: backup_after_save(self.primary, self.backup),
        }
    }

    /// After the file was damaged.
    pub open spec fn damaged(self, error: Seq<char>) -> DiskView {
        DiskView { primary: StoredView::Failed(error), ..self }
    }

    /// What is loaded.
    pub open spec fn loaded(self) -> Result<ConfigView, Seq<char>> {
        loaded(self.primary, self.backup)
    }
}

/// A load gives back what was saved last, whatever was there before. Where the
/// file is then damaged or lost, it gives back what was saved before that.
pub proof fn lemma_saves_are_read_back(
    disk: DiskView,
    earlier: ConfigView,
    later: ConfigView,
    error: Seq<char>,
)
    ensures
        disk.saved(later).loaded() == Ok::<ConfigView, Seq<char>>(migrated(later)),
        disk.saved(earlier).saved(later).damaged(error).loaded() == Ok::<ConfigView, Seq<char>>(
            migrated(earlier),
        ),
        (DiskView { primary: StoredView::Missing, ..disk.saved(earlier).saved(later) }).loaded()
            == Ok::<ConfigView, Seq<char>>(migrated(earlier)),
{
}

fn accept(config: AppConfig) -> (r: AppConfig)
    ensures
        r@ == migrated(config@),
{
    let mut accepted = config;
    migrate_legacy_clone_groups(&mut accepted);
    accepted
}

/// What is loaded, given the file and its backup.
pub fn load(primary: StoredConfig, backup: StoredConfig) -> (r: Result<AppConfig, String>)
    ensures
        r is Ok <==> loaded(primary@, backup@) is Ok,
        r matches Ok(config) ==> loaded(primary@, backup@) == Ok::<ConfigView, Seq<char>>(config@),
        r matches Err(error) ==> loaded(primary@, backup@) == Err::<ConfigView, Seq<char>>(error@),
{
    match primary {
        StoredConfig::Parsed(config) => Ok(accept(config)),
        StoredConfig::Missing => match backup {
            StoredConfig::Missing => {
                let config = AppConfig::default();
                proof {
                    assert(config@ =~= empty_config());
                }
                Ok(config)
            },
            StoredConfig::Parsed(config) => Ok(accept(config)),
            StoredConfig::Failed(error) => {
                let mut message =
                    "primary config is missing and backup recovery failed: ".to_string();
                message.append(error.as_str());
                Err(message)
            },
        },
        StoredConfig::Failed(primary_error) => match backup {
            StoredConfig::Missing => Err(primary_error),
            StoredConfig::Parsed(config) => Ok(accept(config)),
            StoredConfig::Failed(error) => {
                let mut message = "primary config failed (".to_string();
                message.append(primary_error.as_str());
                message.append(") and backup recovery also failed: ");
                message.append(error.as_str());
                Err(message)
            },
        },
    }
}

/// Whether the file is copied to its backup before it is written again: only
/// one that can be read is worth keeping.
pub fn keeps_backup(existing: &StoredConfig) -> (r: bool)
    ensures
        r == (existing@ is Parsed),
        forall|backup: StoredView| #[trigger]
            backup_after_save(existing@, backup) == (if r {
                existing@
            } else {
                backup
            }),
{
    match existing {
        StoredConfig::Parsed(_) => true,
        _ => false,
    }
}

} // verus!
