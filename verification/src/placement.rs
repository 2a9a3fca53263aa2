//! Where the shards and windows of an index live: what is shown of them, what a node may claim, and
//! which of them a reindex rebuilds.
use vstd::prelude::*;
use vstd::string::*;

use crate::endpoint::{endpoint_refusal, validate_endpoint};
use crate::registry::{registry_status, RegistryError};
use crate::reindex_driver::Unit;
use crate::requests::{definition_refused, fault_text, DefinitionFault};
use crate::status::{plain, tagged, Code, Status, StatusView};
use crate::text::{append_decimal, append_signed, copies, decimal, join, joined, signed_decimal};

verus! {

/// The nodes that hold a shard or window.
#[derive(Debug, Clone)]
pub struct Assignment {
    pub primary: Option<String>,
    pub replicas: Vec<String>,
}

/// The nodes that hold a window, what is known of its event times, and whether it is parked.
#[derive(Debug, Clone)]
pub struct WindowAssignment {
    pub assignment: Assignment,
    pub event_min: Option<i64>,
    pub event_max: Option<i64>,
    pub cold: bool,
}

/// The shards of an index by ordinal, or its windows by time.
#[derive(Debug)]
pub struct IndexPlacement {
    pub shards: Vec<(u32, Assignment)>,
    pub windows: Vec<(i64, WindowAssignment)>,
}

/// A shard or window as it is shown.
#[derive(Debug)]
pub struct ShardStatus {
    pub ordinal: u32,
    pub window: i64,
    pub primary: String,
    pub replicas: Vec<String>,
    pub state: &'static str,
    pub event_min: i64,
    pub event_max: i64,
    pub has_event_bounds: bool,
    pub cold: bool,
}

/// The bounds of a window's event times, where both are known.
pub open spec fn bounds_of(w: WindowAssignment) -> Option<(i64, i64)> {
    match (w.event_min, w.event_max) {
        (Some(lo), Some(hi)) => Some((lo, hi)),
        _ => None,
    }
}

/// Whether `s` shows a unit. One without a primary is still being built.
pub open spec fn shows(
    s: ShardStatus,
    ordinal: u32,
    window: i64,
    a: Assignment,
    bounds: Option<(i64, i64)>,
    cold: bool,
) -> bool {
    &&& s.ordinal == ordinal
    &&& s.window == window
    &&& s.primary@ == (match a.primary {
        Some(p) => p@,
        None => Seq::empty(),
    })
    &&& s.replicas.deep_view() == a.replicas.deep_view()
    &&& s.state@ == (if a.primary is Some {
        "active"@
    } else {
        "building"@
    })
    &&& s.has_event_bounds == bounds is Some
    &&& s.event_min == (match bounds {
        Some(b) => b.0,
        None => 0,
    })
    &&& s.event_max == (match bounds {
        Some(b) => b.1,
        None => 0,
    })
    &&& s.cold == cold
}

fn shown(ordinal: u32, window: i64, a: &Assignment, bounds: Option<(i64, i64)>, cold: bool) -> (s:
    ShardStatus)
    ensures
        shows(s, ordinal, window, *a, bounds, cold),
{
    let (primary, state) = match &a.primary {
        Some(p) => (p.clone(), "active"),
        None => (String::new(), "building"),
    };
    let (event_min, event_max, has_event_bounds) = match bounds {
        Some(b) => (b.0, b.1, true),
        None => (0i64, 0i64, false),
    };
    ShardStatus {
        ordinal,
        window,
        primary,
        replicas: copies(&a.replicas),
        state,
        event_min,
        event_max,
        has_event_bounds,
        cold,
    }
}

/// Whether `out` shows the units of an index: its windows with their positions, or its shards
/// where it has no windows.
pub open spec fn shows_units(out: Seq<ShardStatus>, p: IndexPlacement) -> bool {
    if p.windows@.len() == 0 {
        out.len() == p.shards@.len() && forall|i: int|
            0 <= i < out.len() ==> shows(
                #[trigger] out[i],
                p.shards@[i].0,
                0,
                p.shards@[i].1,
                None,
                false,
            )
    } else {
        out.len() == p.windows@.len() && forall|i: int|
            0 <= i < out.len() ==> shows(
                #[trigger] out[i],
                i as u32,
                p.windows@[i].0,
                p.windows@[i].1.assignment,
                bounds_of(p.windows@[i].1),
                p.windows@[i].1.cold,
            )
    }
}

/// The units of an index as they are shown.
pub fn shard_statuses(p: &IndexPlacement) -> (out: Vec<ShardStatus>)
    requires
        p.windows@.len() <= u32::MAX,
    ensures
        shows_units(out@, *p),
{
    let mut out: Vec<ShardStatus> = Vec::new();
    let mut i: usize = 0;
    if p.windows.len() == 0 {
        while i < p.shards.len()
            invariant
                i <= p.shards@.len(),
                out@.len() == i,
                forall|k: int|
                    0 <= k < i ==> shows(
                        #[trigger] out@[k],
                        p.shards@[k].0,
                        0,
                        p.shards@[k].1,
                        None,
                        false,
                    ),
            decreases p.shards@.len() - i,
        {
            out.push(shown(p.shards[i].0, 0, &p.shards[i].1, None, false));
            i = i + 1;
        }
        return out;
    }
    while i < p.windows.len()
        invariant
            p.windows@.len() <= u32::MAX,
            i <= p.windows@.len(),
            out@.len() == i,
            forall|k: int|
                0 <= k < i ==> shows(
                    #[trigger] out@[k],
                    k as u32,
                    p.windows@[k].0,
                    p.windows@[k].1.assignment,
                    bounds_of(p.windows@[k].1),
                    p.windows@[k].1.cold,
                ),
        decreases p.windows@.len() - i,
    {
        let w = &p.windows[i].1;
        let bounds = match (w.event_min, w.event_max) {
            (Some(lo), Some(hi)) => Some((lo, hi)),
            _ => None,
        };
        out.push(shown(i as u32, p.windows[i].0, &w.assignment, bounds, w.cold));
        i = i + 1;
    }
    out
}

/// A shard by its ordinal, or a window by its id.
#[derive(Debug, Clone, Copy, PartialEq, Eq, Structural)]
pub enum UnitId {
    Shard(u32),
    Window(i64),
}

/// A unit that a node holds.
#[derive(Debug)]
pub struct UnitAssignment {
    pub index: String,
    pub unit: UnitId,
    pub primary: bool,
}

/// All that a node holds.
#[derive(Debug)]
pub struct NodeAssignments {
    pub units: Vec<UnitAssignment>,
}

/// What a node is told that it holds: each unit of `units`, in their order.
pub fn node_assignments_wire(units: Vec<(String, UnitId, bool)>) -> (a: NodeAssignments)
    ensures
        a.units@.len() == units@.len(),
        forall|i: int|
            0 <= i < units@.len() ==> (#[trigger] a.units@[i]).index@ == units@[i].0@
                && a.units@[i].unit == units@[i].1 && a.units@[i].primary == units@[i].2,
{
    let mut out: Vec<UnitAssignment> = Vec::new();
    let mut i: usize = 0;
    while i < units.len()
        invariant
            i <= units@.len(),
            out@.len() == i,
            forall|k: int|
                0 <= k < i ==> (#[trigger] out@[k]).index@ == units@[k].0@ && out@[k].unit
                    == units@[k].1 && out@[k].primary == units@[k].2,
        decreases units@.len() - i,
    {
        out.push(
            UnitAssignment { index: units[i].0.clone(), unit: units[i].1, primary: units[i].2 },
        );
        i = i + 1;
    }
    NodeAssignments { units: out }
}

/// The unit that a request names.
pub fn named_unit(unit: Option<UnitId>) -> (r: Result<UnitId, Status>)
    ensures
        match unit {
            Some(u) => r == Ok::<UnitId, Status>(u),
            None => r matches Err(e) && e@ == plain(
                Code::InvalidArgument,
                "ResolveUnitOwnerRequest.unit is required (shard or window)"@,
            ),
        },
{
    match unit {
        Some(u) => Ok(u),
        None => Err(
            Status::fixed(
                Code::InvalidArgument,
                "ResolveUnitOwnerRequest.unit is required (shard or window)",
            ),
        ),
    }
}

/// Refuses a subscription to the assignments of a node that has not registered.
pub fn may_subscribe(endpoint: &str, alive: bool) -> (r: Result<(), Status>)
    ensures
        match r {
            Ok(_) => alive,
            Err(e) => !alive && e@ == plain(
                Code::FailedPrecondition,
                "`"@ + endpoint@
                    + "` is not a registered pool node — RegisterNode first, then subscribe"@,
            ),
        },
{
    if alive {
        return Ok(());
    }
    let mut m = "`".to_owned();
    m.append(endpoint);
    m.append("` is not a registered pool node — RegisterNode first, then subscribe");
    Err(Status::new(Code::FailedPrecondition, m))
}

/// The shards that a node claims when it announces an index of `count` shards: those that it
/// names. One that is not placed by the control plane and names none claims all of them.
pub open spec fn claimed(count: u32, ordinals: Seq<u32>, pool_managed: bool) -> Seq<u32> {
    if pool_managed || ordinals.len() > 0 {
        ordinals
    } else {
        Seq::new(count as nat, |i: int| i as u32)
    }
}

/// The number of shards that an announcement declares; none declares one.
pub open spec fn declared(shard_count: u32) -> u32 {
    if shard_count == 0 {
        1
    } else {
        shard_count
    }
}

/// The message for a shard that there is not.
pub open spec fn out_of_range_text(shard: u32, count: u32) -> Seq<char> {
    "shard ordinal "@ + decimal(shard as nat) + " is out of range for a "@ + decimal(count as nat)
        + "-shard index"@
}

/// The first of `ordinals` that is not below `count`.
pub open spec fn first_beyond(ordinals: Seq<u32>, count: u32) -> Option<u32>
    decreases ordinals.len(),
{
    if ordinals.len() == 0 {
        None
    } else if ordinals[0] >= count {
        Some(ordinals[0])
    } else {
        first_beyond(ordinals.drop_first(), count)
    }
}

/// The number of shards of an index that is announced, and those of them that the node claims.
pub fn claim_shards(shard_count: u32, ordinals: &Vec<u32>, pool_managed: bool) -> (r: Result<
    (u32, Vec<u32>),
    Status,
>)
    ensures
        ({
            let count = declared(shard_count);
            let own = claimed(count, ordinals@, pool_managed);
            match first_beyond(own, count) {
                Some(shard) => r matches Err(e) && e@ == plain(
                    Code::InvalidArgument,
                    out_of_range_text(shard, count),
                ),
                None => r matches Ok(c) && c.0 == count && c.1@ == own,
            }
        }),
{
    let count: u32 = if shard_count == 0 {
        1
    } else {
        shard_count
    };
    let mut own: Vec<u32> = Vec::new();
    if pool_managed || ordinals.len() > 0 {
        let mut i: usize = 0;
        assert(ordinals@.skip(0) =~= ordinals@);
        while i < ordinals.len()
            invariant
                i <= ordinals@.len(),
                own@ == ordinals@.take(i as int),
                count == declared(shard_count),
                pool_managed || ordinals@.len() > 0,
                first_beyond(ordinals@, count) == first_beyond(ordinals@.skip(i as int), count),
            decreases ordinals@.len() - i,
        {
            assert(ordinals@.skip(i as int)[0] == ordinals@[i as int]);
            assert(ordinals@.skip(i as int).drop_first() =~= ordinals@.skip(i + 1));
            if ordinals[i] >= count {
                let mut m = "shard ordinal ".to_owned();
                append_decimal(&mut m, ordinals[i] as u64);
                m.append(" is out of range for a ");
                append_decimal(&mut m, count as u64);
                m.append("-shard index");
                return Err(Status::new(Code::InvalidArgument, m));
            }
            own.push(ordinals[i]);
            i = i + 1;
        }
        assert(ordinals@.take(i as int) =~= ordinals@);
    } else {
        let mut o: u32 = 0;
        while o < count
            invariant
                o <= count,
                own@ == Seq::new(o as nat, |i: int| i as u32),
            decreases count - o,
        {
            own.push(o);
            assert(own@ =~= Seq::new((o + 1) as nat, |i: int| i as u32));
            o = o + 1;
        }
        proof {
            lemma_none_beyond(own@, count);
        }
    }
    Ok((count, own))
}

proof fn lemma_none_beyond(ordinals: Seq<u32>, count: u32)
    requires
        forall|i: int| 0 <= i < ordinals.len() ==> #[trigger] ordinals[i] < count,
    ensures
        first_beyond(ordinals, count) is None,
    decreases ordinals.len(),
{
    if ordinals.len() > 0 {
        let rest = ordinals.drop_first();
        assert forall|i: int| 0 <= i < rest.len() implies #[trigger] rest[i] < count by {
            assert(ordinals[i + 1] < count);
        }
        assert(ordinals[0] < count);
        lemma_none_beyond(rest, count);
    }
}

/// A window that a node says it serves.
#[derive(Debug, Clone, Copy)]
pub struct ServedWindow {
    pub window: i64,
    pub event_min: i64,
    pub event_max: i64,
    pub has_event_bounds: bool,
    pub cold: bool,
}

/// A window that a node announces.
#[derive(Debug, Clone, Copy, PartialEq, Eq)]
pub struct WindowAnnounce {
    pub window: i64,
    pub bounds: Option<(i64, i64)>,
    pub cold: bool,
}

/// The announcement of a window.
pub open spec fn announced(w: ServedWindow) -> WindowAnnounce {
    WindowAnnounce {
        window: w.window,
        bounds: if w.has_event_bounds {
            Some((w.event_min, w.event_max))
        } else {
            None
        },
        cold: w.cold,
    }
}

/// The announcements of the windows that a node says it serves.
pub fn window_announces(served: &Vec<ServedWindow>) -> (out: Vec<WindowAnnounce>)
    ensures
        out@ == served@.map_values(|w: ServedWindow| announced(w)),
{
    let mut out: Vec<WindowAnnounce> = Vec::new();
    let mut i: usize = 0;
    while i < served.len()
        invariant
            i <= served@.len(),
            out@.len() == i,
            forall|k: int| 0 <= k < i ==> #[trigger] out@[k] == announced(served@[k]),
        decreases served@.len() - i,
    {
        let w: ServedWindow = served[i];
        let bounds = if w.has_event_bounds {
            Some((w.event_min, w.event_max))
        } else {
            None
        };
        out.push(WindowAnnounce { window: w.window, bounds, cold: w.cold });
        i = i + 1;
    }
    assert(out@ =~= served@.map_values(|w: ServedWindow| announced(w)));
    out
}

/// What a node that announces an index claims of it.
#[derive(Debug)]
pub enum Claims {
    /// These shards, of an index with this many.
    Shards { of: u32, ordinals: Vec<u32> },
    /// These windows.
    Windows(Vec<WindowAnnounce>),
}

/// An announcement that was refused: nothing is claimed. A refusal may come after the node was
/// found alive, and after the index was registered.
#[derive(Debug)]
pub struct AnnounceRefused {
    pub status: Status,
    /// Whether the node counts as alive all the same.
    pub alive: bool,
    /// Whether the index is registered all the same.
    pub registered: bool,
}

/// Why an announcement is refused, whether the node counts as alive all the same, and whether the
/// index is registered all the same. `definition` says whether the index is windowed, or why its
/// definition could not be read.
pub open spec fn announce_refusal(
    endpoint: Seq<char>,
    definition: Result<bool, String>,
    shard_count: u32,
    ordinals: Seq<u32>,
    pool_managed: bool,
) -> Option<(StatusView, bool, bool)> {
    let count = declared(shard_count);
    match (endpoint_refusal(endpoint), definition) {
        (Some(s), _) => Some((s, false, false)),
        (None, Err(e)) => Some(
            (
                plain(Code::InvalidArgument, fault_text(DefinitionFault::UnreadableJson(e))),
                true,
                false,
            ),
        ),
        (None, Ok(true)) => None,
        (None, Ok(false)) => match first_beyond(claimed(count, ordinals, pool_managed), count) {
            Some(shard) => Some(
                (plain(Code::InvalidArgument, out_of_range_text(shard, count)), true, true),
            ),
            None => None,
        },
    }
}

/// What a node that announces an index claims, or why it is refused. Claims are made only of an
/// announcement that is not refused.
pub fn plan_announcement(
    endpoint: &str,
    definition: Result<bool, String>,
    shard_count: u32,
    ordinals: &Vec<u32>,
    pool_managed: bool,
    served: &Vec<ServedWindow>,
) -> (r: Result<Claims, AnnounceRefused>)
    ensures
        match announce_refusal(endpoint@, definition, shard_count, ordinals@, pool_managed) {
            Some(why) => r matches Err(e) && e.status@ == why.0 && e.alive == why.1 && e.registered
                == why.2,
            None => if definition == Ok::<bool, String>(true) {
                r matches Ok(Claims::Windows(w)) && w@ == served@.map_values(
                    |w: ServedWindow| announced(w),
                )
            } else {
                r matches Ok(Claims::Shards { of, ordinals: own }) && of == declared(shard_count)
                    && own@ == claimed(of, ordinals@, pool_managed)
            },
        },
{
    if let Err(status) = validate_endpoint(endpoint) {
        return Err(AnnounceRefused { status, alive: false, registered: false });
    }
    let windowed = match definition {
        Ok(w) => w,
        Err(e) => return Err(
            AnnounceRefused {
                status: definition_refused(DefinitionFault::UnreadableJson(e)),
                alive: true,
                registered: false,
            },
        ),
    };
    if windowed {
        return Ok(Claims::Windows(window_announces(served)));
    }
    match claim_shards(shard_count, ordinals, pool_managed) {
        Ok((of, own)) => Ok(Claims::Shards { of, ordinals: own }),
        Err(status) => Err(AnnounceRefused { status, alive: true, registered: true }),
    }
}

/// The node to rebuild a unit on: its primary, where it has one with an address.
pub open spec fn rebuild_node(a: Assignment) -> Option<Seq<char>> {
    match a.primary {
        Some(p) => if p@.len() > 0 {
            Some(p@)
        } else {
            None
        },
        None => None,
    }
}

/// The message for a unit without a primary.
pub open spec fn no_primary_text(unit: Seq<char>, index: Seq<char>) -> Seq<char> {
    unit + " of `"@ + index + "` has no primary; cannot reindex"@
}

/// The message for an index whose windows are all parked.
pub open spec fn no_hot_text(index: Seq<char>, cold: nat) -> Seq<char> {
    "index `"@ + index + "` has no hot windows to reindex ("@ + decimal(cold)
        + " cold windows skipped; cold-window reindex is a follow-up)"@
}

/// The message for an index without shards.
pub open spec fn no_shards_text(index: Seq<char>) -> Seq<char> {
    "index `"@ + index + "` has no assigned shards to reindex"@
}

/// The units to rebuild of the first `n` windows, by position; the parked ones are left out.
pub open spec fn hot_windows(windows: Seq<(i64, WindowAssignment)>, n: int) -> Seq<int>
    decreases n,
{
    if n <= 0 {
        Seq::empty()
    } else if windows[n - 1].1.cold {
        hot_windows(windows, n - 1)
    } else {
        hot_windows(windows, n - 1).push(n - 1)
    }
}

/// The first hot window among the first `n` that has no node to be rebuilt on.
pub open spec fn first_homeless_window(windows: Seq<(i64, WindowAssignment)>, n: int) -> Option<int>
    decreases n,
{
    if n <= 0 {
        None
    } else {
        match first_homeless_window(windows, n - 1) {
            Some(i) => Some(i),
            None => if !windows[n - 1].1.cold && rebuild_node(
                windows[n - 1].1.assignment,
            ) is None {
                Some(n - 1)
            } else {
                None
            },
        }
    }
}

/// The first shard among the first `n` that has no node to be rebuilt on.
pub open spec fn first_homeless_shard(shards: Seq<(u32, Assignment)>, n: int) -> Option<int>
    decreases n,
{
    if n <= 0 {
        None
    } else {
        match first_homeless_shard(shards, n - 1) {
            Some(i) => Some(i),
            None => if rebuild_node(shards[n - 1].1) is None {
                Some(n - 1)
            } else {
                None
            },
        }
    }
}

/// What keeps an index from being rebuilt.
pub open spec fn reindex_refusal(index: Seq<char>, windowed: bool, p: IndexPlacement) -> Option<
    Seq<char>,
> {
    let n = p.windows@.len() as int;
    if windowed {
        match first_homeless_window(p.windows@, n) {
            Some(i) => Some(
                no_primary_text("window "@ + signed_decimal(p.windows@[i].0 as int), index),
            ),
            None => if hot_windows(p.windows@, n).len() == 0 {
                Some(no_hot_text(index, n as nat))
            } else {
                None
            },
        }
    } else if p.shards@.len() == 0 {
        Some(no_shards_text(index))
    } else {
        match first_homeless_shard(p.shards@, p.shards@.len() as int) {
            Some(i) => Some(no_primary_text("shard "@ + decimal(p.shards@[i].0 as nat), index)),
            None => None,
        }
    }
}

/// Whether `units` are the shards of an index, each with its node.
pub open spec fn are_shard_units(units: Seq<Unit>, shards: Seq<(u32, Assignment)>, n: int) -> bool {
    &&& units.len() == n
    &&& forall|k: int|
        0 <= k < n ==> (#[trigger] units[k]).ordinal == shards[k].0 && units[k].window == 0
            && rebuild_node(shards[k].1) == Some(units[k].node@)
}

/// Whether `units` are the hot windows among the first `n`, each with its node.
pub open spec fn are_window_units(
    units: Seq<Unit>,
    windows: Seq<(i64, WindowAssignment)>,
    n: int,
) -> bool {
    let hot = hot_windows(windows, n);
    &&& units.len() == hot.len()
    &&& forall|k: int|
        0 <= k < hot.len() ==> (#[trigger] units[k]).ordinal == 0 && units[k].window
            == windows[hot[k]].0 && rebuild_node(windows[hot[k]].1.assignment) == Some(
            units[k].node@,
        )
}

fn node_of(a: &Assignment) -> (r: Option<String>)
    ensures
        r.deep_view() == rebuild_node(*a),
{
    match &a.primary {
        Some(p) => if p.as_str().is_empty() {
            None
        } else {
            Some(p.clone())
        },
        None => None,
    }
}

fn no_primary(unit: &str, index: &str) -> (s: Status)
    ensures
        s@ == plain(Code::FailedPrecondition, no_primary_text(unit@, index@)),
{
    let mut m = unit.to_owned();
    m.append(" of `");
    m.append(index);
    m.append("` has no primary; cannot reindex");
    Status::new(Code::FailedPrecondition, m)
}

proof fn lemma_homeless_window_stays(windows: Seq<(i64, WindowAssignment)>, m: int, n: int)
    requires
        0 <= m <= n,
        first_homeless_window(windows, m) is Some,
    ensures
        first_homeless_window(windows, n) == first_homeless_window(windows, m),
    decreases n - m,
{
    if m < n {
        lemma_homeless_window_stays(windows, m, n - 1);
    }
}

proof fn lemma_homeless_shard_stays(shards: Seq<(u32, Assignment)>, m: int, n: int)
    requires
        0 <= m <= n,
        first_homeless_shard(shards, m) is Some,
    ensures
        first_homeless_shard(shards, n) == first_homeless_shard(shards, m),
    decreases n - m,
{
    if m < n {
        lemma_homeless_shard_stays(shards, m, n - 1);
    }
}

/// The units of an index that a reindex rebuilds, each with its node: its shards, or its windows
/// without the parked ones, which no node writes. `placed` is none where the index is not
/// registered.
pub fn plan_reindex_shards(index: &str, windowed: bool, placed: Option<&IndexPlacement>) -> (r:
    Result<Vec<Unit>, Status>)
    ensures
        match placed {
            None => r matches Err(e) && e@ == tagged(
                Code::NotFound,
                "NOT_FOUND"@,
                "index `"@ + index@ + "` not found"@,
            ),
            Some(p) => match reindex_refusal(index@, windowed, *p) {
                Some(m) => r matches Err(e) && e@ == plain(Code::FailedPrecondition, m),
                None => r matches Ok(units) && if windowed {
                    are_window_units(units@, p.windows@, p.windows@.len() as int)
                } else {
                    are_shard_units(units@, p.shards@, p.shards@.len() as int)
                },
            },
        },
{
    match placed {
        Some(p) => units_to_rebuild(index, windowed, p),
        None => Err(registry_status(RegistryError::NotFound(index.to_owned()))),
    }
}

fn units_to_rebuild(index: &str, windowed: bool, p: &IndexPlacement) -> (r: Result<
    Vec<Unit>,
    Status,
>)
    ensures
        match reindex_refusal(index@, windowed, *p) {
            Some(m) => r matches Err(e) && e@ == plain(Code::FailedPrecondition, m),
            None => r matches Ok(units) && if windowed {
                are_window_units(units@, p.windows@, p.windows@.len() as int)
            } else {
                are_shard_units(units@, p.shards@, p.shards@.len() as int)
            },
        },
{
    let mut units: Vec<Unit> = Vec::new();
    if windowed {
        let n: usize = p.windows.len();
        let mut skipped: usize = 0;
        let mut i: usize = 0;
        while i < n
            invariant
                n == p.windows@.len(),
                i <= n,
                windowed,
                skipped + units@.len() == i,
                first_homeless_window(p.windows@, i as int) is None,
                are_window_units(units@, p.windows@, i as int),
            decreases n - i,
        {
            let w = &p.windows[i].1;
            if w.cold {
                skipped = skipped + 1;
            } else {
                match node_of(&w.assignment) {
                    None => {
                        proof {
                            lemma_homeless_window_stays(p.windows@, i + 1, n as int);
                        }
                        let mut unit = "window ".to_owned();
                        append_signed(&mut unit, p.windows[i].0);
                        return Err(no_primary(unit.as_str(), index));
                    },
                    Some(node) => {
                        units.push(Unit { ordinal: 0, window: p.windows[i].0, node });
                    },
                }
            }
            i = i + 1;
        }
        if units.len() == 0 {
            let mut m = "index `".to_owned();
            m.append(index);
            m.append("` has no hot windows to reindex (");
            append_decimal(&mut m, skipped as u64);
            m.append(" cold windows skipped; cold-window reindex is a follow-up)");
            return Err(Status::new(Code::FailedPrecondition, m));
        }
        return Ok(units);
    }
    let n: usize = p.shards.len();
    if n == 0 {
        let mut m = "index `".to_owned();
        m.append(index);
        m.append("` has no assigned shards to reindex");
        return Err(Status::new(Code::FailedPrecondition, m));
    }
    let mut i: usize = 0;
    while i < n
        invariant
            n == p.shards@.len(),
            n > 0,
            i <= n,
            !windowed,
            first_homeless_shard(p.shards@, i as int) is None,
            are_shard_units(units@, p.shards@, i as int),
        decreases n - i,
    {
        match node_of(&p.shards[i].1) {
            None => {
                proof {
                    lemma_homeless_shard_stays(p.shards@, i + 1, n as int);
                }
                let mut unit = "shard ".to_owned();
                append_decimal(&mut unit, p.shards[i].0 as u64);
                return Err(no_primary(unit.as_str(), index));
            },
            Some(node) => {
                units.push(Unit { ordinal: p.shards[i].0, window: 0, node });
            },
        }
        i = i + 1;
    }
    Ok(units)
}

/// What a node said about its free disk.
#[derive(Debug, Clone, Copy)]
pub struct DiskProbe {
    /// Whether the node could find out.
    pub probed: bool,
    pub ok: bool,
    pub needed_bytes: u64,
    pub free_bytes: u64,
}

/// Whether a probe says that there is too little. A node that was not reached, or could not find
/// out, is not held against the reindex: its build checks again.
pub open spec fn is_short(probe: Option<DiskProbe>) -> bool {
    probe is Some && probe->0.probed && !probe->0.ok
}

/// The name of a unit.
pub open spec fn unit_label(u: Unit) -> Seq<char> {
    if u.window != 0 {
        "window "@ + signed_decimal(u.window as int)
    } else {
        "shard "@ + decimal(u.ordinal as nat)
    }
}

/// What is said of a unit whose node has too little.
pub open spec fn short_text(u: Unit, probe: DiskProbe) -> Seq<char> {
    unit_label(u) + " on "@ + u.node@ + ": need ~"@ + decimal(probe.needed_bytes as nat)
        + " bytes, only "@ + decimal(probe.free_bytes as nat) + " free"@
}

/// What is said of the first `n` units whose nodes have too little.
pub open spec fn short_texts(units: Seq<Unit>, probes: Seq<Option<DiskProbe>>, n: int) -> Seq<Seq<char>>
    decreases n,
{
    if n <= 0 {
        Seq::empty()
    } else if is_short(probes[n - 1]) {
        short_texts(units, probes, n - 1).push(short_text(units[n - 1], probes[n - 1]->0))
    } else {
        short_texts(units, probes, n - 1)
    }
}

/// The message for a reindex with too little disk.
pub open spec fn short_of_disk_text(index: Seq<char>, short: Seq<Seq<char>>) -> Seq<char> {
    "insufficient free disk to reindex `"@ + index + "` on "@ + decimal(short.len())
        + " node(s): "@ + joined(short, "; "@)
}

/// Refuses a reindex of `units` where a node said that it has too little free disk.
pub fn precheck_reindex_disk(index: &str, units: &Vec<Unit>, probes: &Vec<Option<DiskProbe>>) -> (r:
    Result<(), Status>)
    requires
        units@.len() == probes@.len(),
    ensures
        ({
            let short = short_texts(units@, probes@, units@.len() as int);
            match r {
                Ok(_) => short.len() == 0,
                Err(e) => short.len() > 0 && e@ == plain(
                    Code::FailedPrecondition,
                    short_of_disk_text(index@, short),
                ),
            }
        }),
{
    let mut short: Vec<String> = Vec::new();
    let mut i: usize = 0;
    assert(short.deep_view() =~= Seq::empty());
    while i < units.len()
        invariant
            units@.len() == probes@.len(),
            i <= units@.len(),
            short.deep_view() == short_texts(units@, probes@, i as int),
        decreases units@.len() - i,
    {
        if let Some(probe) = probes[i] {
            if probe.probed && !probe.ok {
                let u = &units[i];
                let mut m = if u.window != 0 {
                    let mut label = "window ".to_owned();
                    append_signed(&mut label, u.window);
                    label
                } else {
                    let mut label = "shard ".to_owned();
                    append_decimal(&mut label, u.ordinal as u64);
                    label
                };
                m.append(" on ");
                m.append(u.node.as_str());
                m.append(": need ~");
                append_decimal(&mut m, probe.needed_bytes);
                m.append(" bytes, only ");
                append_decimal(&mut m, probe.free_bytes);
                m.append(" free");
                let ghost was = short.deep_view();
                short.push(m);
                assert(short.deep_view() =~= was.push(short_text(*u, probe)));
            }
        }
        i = i + 1;
    }
    if short.len() > 0 {
        let listed = join(&short, "; ");
        let n: usize = short.len();
        assert(short.deep_view().len() == n);
        let mut m = "insufficient free disk to reindex `".to_owned();
        m.append(index);
        m.append("` on ");
        append_decimal(&mut m, n as u64);
        m.append(" node(s): ");
        m.append(listed.as_str());
        return Err(Status::new(Code::FailedPrecondition, m));
    }
    assert(short.deep_view().len() == 0);
    Ok(())
}

} // verus!
