//! What holds of where units live, said of one unit at a time.
use vstd::prelude::*;

use crate::caller_laws::lemma_after;
use crate::endpoint::{after_scheme, last_at, number, validate_endpoint};
use crate::placement::{
    claim_shards, claimed, declared, first_beyond, first_homeless_shard, first_homeless_window,
    hot_windows, may_subscribe, named_unit, node_assignments_wire, plan_announcement,
    plan_reindex_shards, precheck_reindex_disk, shard_statuses, short_texts, window_announces,
    AnnounceRefused, Claims, DiskProbe, IndexPlacement, NodeAssignments, ServedWindow, ShardStatus,
    UnitId, WindowAnnounce,
};
use crate::reindex_driver::Unit;
use crate::status::{Code, Status};
use crate::text::{decimal, is_whitespace, joined};
use crate::text_laws::{lemma_decimal_says, number_of};

verus! {

/// The windows of an index are shown in their order, each under its position, with its holders, its
/// event times where both bounds are known, and whether it is parked. An index without windows shows
/// its shards. A unit without a primary is still being built.
pub proof fn lemma_units_are_shown(p: IndexPlacement, out: Vec<ShardStatus>, i: int)
    requires
        call_ensures(shard_statuses, (&p,), out),
        p.windows@.len() <= u32::MAX,
    ensures
        p.windows@.len() > 0 ==> out@.len() == p.windows@.len(),
        p.windows@.len() == 0 ==> out@.len() == p.shards@.len(),
        0 <= i < out@.len() ==> ({
            let s = out@[i];
            let a = if p.windows@.len() > 0 {
                p.windows@[i].1.assignment
            } else {
                p.shards@[i].1
            };
            &&& a.primary matches Some(n) ==> s.primary@ == n@ && s.state@ == "active"@
            &&& a.primary is None ==> s.primary@.len() == 0 && s.state@ == "building"@
            &&& s.replicas.deep_view() == a.replicas.deep_view()
        }),
        p.windows@.len() == 0 && 0 <= i < out@.len() ==> out@[i].ordinal == p.shards@[i].0
            && out@[i].window == 0 && !out@[i].cold && !out@[i].has_event_bounds,
        p.windows@.len() > 0 && 0 <= i < out@.len() ==> ({
            let s = out@[i];
            let w = p.windows@[i].1;
            &&& s.ordinal == i && s.window == p.windows@[i].0 && s.cold == w.cold
            &&& s.has_event_bounds <==> w.event_min is Some && w.event_max is Some
            &&& s.has_event_bounds ==> s.event_min == w.event_min->0 && s.event_max == w.event_max->0
        }),
{
}

/// A node is told of each unit it holds, in the order given: of which index, which unit, and whether
/// as the primary.
pub proof fn lemma_node_is_told(units: Vec<(String, UnitId, bool)>, a: NodeAssignments, i: int)
    requires
        call_ensures(node_assignments_wire, (units,), a),
    ensures
        a.units@.len() == units@.len(),
        0 <= i < units@.len() ==> a.units@[i].index@ == units@[i].0@ && a.units@[i].unit
            == units@[i].1 && a.units@[i].primary == units@[i].2,
{
}

/// A request for the owner of a unit is about the unit it names, and is refused where it names none.
pub proof fn lemma_unit_is_named(unit: Option<UnitId>, r: Result<UnitId, Status>)
    requires
        call_ensures(named_unit, (unit,), r),
    ensures
        r is Ok <==> unit is Some,
        r matches Ok(u) ==> u == unit->0,
        r matches Err(e) ==> e.code == Code::InvalidArgument,
{
}

/// A node that is alive may subscribe, and no other.
pub proof fn lemma_only_the_alive_subscribe(endpoint: &str, alive: bool, r: Result<(), Status>)
    requires
        call_ensures(may_subscribe, (endpoint, alive), r),
    ensures
        r is Ok <==> alive,
        r matches Err(e) ==> e.code == Code::FailedPrecondition,
{
}

proof fn lemma_beyond(ordinals: Seq<u32>, count: u32)
    ensures
        first_beyond(ordinals, count) is None <==> forall|i: int|
            0 <= i < ordinals.len() ==> #[trigger] ordinals[i] < count,
        first_beyond(ordinals, count) matches Some(s) ==> s >= count && ordinals.contains(s),
    decreases ordinals.len(),
{
    if ordinals.len() > 0 {
        let rest = ordinals.drop_first();
        lemma_beyond(rest, count);
        assert forall|i: int| 0 <= i < rest.len() implies rest[i] == ordinals[i + 1] by {}
        if ordinals[0] >= count {
            assert(ordinals.contains(ordinals[0]));
        } else {
            if let Some(s) = first_beyond(rest, count) {
                let k = choose|k: int| 0 <= k < rest.len() && rest[k] == s;
                assert(ordinals[k + 1] == s);
                assert(!(ordinals[k + 1] < count));
            } else {
                assert forall|i: int| 0 <= i < ordinals.len() implies #[trigger] ordinals[i] < count by {
                    if i > 0 {
                        assert(rest[i - 1] < count);
                    }
                }
            }
        }
    }
}

/// Whether a node claims these shards of an index with `count`: those that it names; all where it
/// names none and is not placed by the control plane.
pub open spec fn claims_shards(own: Seq<u32>, count: u32, ordinals: Seq<u32>, managed: bool) -> bool {
    &&& managed || ordinals.len() > 0 ==> own == ordinals
    &&& !managed && ordinals.len() == 0 ==> own.len() == count && forall|i: int|
        0 <= i < count ==> #[trigger] own[i] == i
}

/// An index has as many shards as the node declares, and one at least. The node's claim is refused
/// exactly where it names a shard that there is not.
pub proof fn lemma_shards_are_claimed(
    shard_count: u32,
    ordinals: Vec<u32>,
    managed: bool,
    r: Result<(u32, Vec<u32>), Status>,
)
    requires
        call_ensures(claim_shards, (shard_count, &ordinals, managed), r),
    ensures
        r is Err <==> exists|i: int|
            0 <= i < ordinals@.len() && #[trigger] ordinals@[i] >= shard_count && ordinals@[i] >= 1,
        r matches Ok(c) ==> {
            &&& c.0 >= 1
            &&& shard_count > 0 ==> c.0 == shard_count
            &&& shard_count == 0 ==> c.0 == 1
            &&& claims_shards(c.1@, c.0, ordinals@, managed)
        },
        r matches Err(e) ==> e.code == Code::InvalidArgument,
{
    lemma_claim(shard_count, ordinals@, managed);
}

proof fn lemma_claim(shard_count: u32, ordinals: Seq<u32>, managed: bool)
    ensures
        ({
            let count = declared(shard_count);
            let own = claimed(count, ordinals, managed);
            &&& first_beyond(own, count) is Some <==> exists|i: int|
                0 <= i < ordinals.len() && #[trigger] ordinals[i] >= shard_count && ordinals[i] >= 1
            &&& claims_shards(own, count, ordinals, managed)
        }),
{
    let count = declared(shard_count);
    let own = claimed(count, ordinals, managed);
    lemma_beyond(own, count);
    if first_beyond(own, count) is Some {
        let k = choose|k: int| 0 <= k < own.len() && #[trigger] own[k] >= count;
        assert(ordinals[k] >= shard_count && ordinals[k] >= 1);
    }
}

/// A window is announced under its id, with its event times where the node has bounds for them, and
/// as parked where it is.
pub proof fn lemma_windows_are_announced(
    served: Vec<ServedWindow>,
    out: Vec<WindowAnnounce>,
    i: int,
)
    requires
        call_ensures(window_announces, (&served,), out),
    ensures
        out@.len() == served@.len(),
        0 <= i < out@.len() ==> announces(out@[i], served@[i]),
{
}

/// Whether `a` announces the window `w`.
pub open spec fn announces(a: WindowAnnounce, w: ServedWindow) -> bool {
    &&& a.window == w.window
    &&& a.cold == w.cold
    &&& w.has_event_bounds ==> a.bounds == Some((w.event_min, w.event_max))
    &&& !w.has_event_bounds ==> a.bounds is None
}

/// An announcement from an address that is not accepted does nothing. One whose definition cannot be
/// read, or that names a shard that there is not, claims nothing, though the node is alive; the index
/// is then registered only in the second case. Any other claims the windows that the node serves, or
/// the shards that it claims.
pub proof fn lemma_announcement_claims(
    endpoint: &str,
    definition: Result<bool, String>,
    shard_count: u32,
    ordinals: Vec<u32>,
    managed: bool,
    served: Vec<ServedWindow>,
    r: Result<Claims, AnnounceRefused>,
    valid: Result<(), Status>,
    i: int,
)
    requires
        call_ensures(
            plan_announcement,
            (endpoint, definition, shard_count, &ordinals, managed, &served),
            r,
        ),
        call_ensures(validate_endpoint, (endpoint,), valid),
    ensures
        valid is Err <==> (r matches Err(e) && !e.alive),
        valid is Ok && definition is Err <==> (r matches Err(e) && e.alive && !e.registered),
        r is Err && r->Err_0.registered <==> valid is Ok && definition == Ok::<bool, String>(false)
            && exists|k: int|
            0 <= k < ordinals@.len() && #[trigger] ordinals@[k] >= shard_count && ordinals@[k] >= 1,
        r matches Ok(Claims::Windows(w)) ==> definition == Ok::<bool, String>(true) && w@.len()
            == served@.len() && (0 <= i < w@.len() ==> announces(w@[i], served@[i])),
        r matches Ok(Claims::Shards { of, ordinals: own }) ==> definition == Ok::<bool, String>(
            false,
        ) && of >= 1 && (shard_count > 0 ==> of == shard_count) && (shard_count == 0 ==> of == 1)
            && claims_shards(own@, of, ordinals@, managed),
{
    lemma_claim(shard_count, ordinals@, managed);
    if let Ok(claims) = r {
        assert(definition is Ok);
        if definition->Ok_0 {
            assert(definition == Ok::<bool, String>(true));
            assert(claims is Windows);
        } else {
            assert(definition == Ok::<bool, String>(false));
            assert(claims is Shards);
        }
    }
}

/// Whether a unit is to be rebuilt on the node that holds it as its primary.
pub open spec fn rebuilt_on(u: Unit, primary: Option<String>) -> bool {
    primary matches Some(p) && p@.len() > 0 && u.node@ == p@
}

/// Whether a unit has no primary with an address.
pub open spec fn is_homeless(primary: Option<String>) -> bool {
    match primary {
        Some(p) => p@.len() == 0,
        None => true,
    }
}

proof fn lemma_homeless_shard(shards: Seq<(u32, crate::placement::Assignment)>, n: int)
    requires
        0 <= n <= shards.len(),
    ensures
        first_homeless_shard(shards, n) is None <==> forall|i: int|
            0 <= i < n ==> !is_homeless((#[trigger] shards[i]).1.primary),
        first_homeless_shard(shards, n) matches Some(i) ==> 0 <= i < n && is_homeless(
            shards[i].1.primary,
        ),
    decreases n,
{
    if n > 0 {
        lemma_homeless_shard(shards, n - 1);
        if first_homeless_shard(shards, n - 1) is None && first_homeless_shard(shards, n) is Some {
            assert(is_homeless(shards[n - 1].1.primary));
        }
    }
}

/// A reindex rebuilds every shard of an index that is not windowed, in their order, on its primary. It
/// is refused where the index has none, or where one has no primary.
pub proof fn lemma_shards_are_rebuilt(
    index: &str,
    p: IndexPlacement,
    r: Result<Vec<Unit>, Status>,
    i: int,
)
    requires
        call_ensures(plan_reindex_shards, (index, false, Some(&p)), r),
    ensures
        r is Ok <==> p.shards@.len() > 0 && forall|k: int|
            0 <= k < p.shards@.len() ==> !is_homeless((#[trigger] p.shards@[k]).1.primary),
        r matches Ok(units) ==> units@.len() == p.shards@.len() && (0 <= i < units@.len() ==> {
            &&& units@[i].ordinal == p.shards@[i].0
            &&& units@[i].window == 0
            &&& rebuilt_on(units@[i], p.shards@[i].1.primary)
        }),
        r matches Err(e) ==> e.code == Code::FailedPrecondition,
{
    lemma_homeless_shard(p.shards@, p.shards@.len() as int);
}

/// An index that is not registered is not found.
pub proof fn lemma_unplaced_is_not_found(
    index: &str,
    windowed: bool,
    r: Result<Vec<Unit>, Status>,
)
    requires
        call_ensures(plan_reindex_shards, (index, windowed, None), r),
    ensures
        r matches Err(e) && e.code == Code::NotFound,
{
}

proof fn lemma_hot(windows: Seq<(i64, crate::placement::WindowAssignment)>, n: int)
    requires
        0 <= n <= windows.len(),
    ensures
        ({
            let hot = hot_windows(windows, n);
            &&& forall|k: int| 0 <= k < hot.len() ==> 0 <= #[trigger] hot[k] < n
                && !windows[hot[k]].1.cold
            &&& forall|j: int, k: int| 0 <= j < k < hot.len() ==> #[trigger] hot[j] < #[trigger] hot[k]
            &&& forall|i: int|
                0 <= i < n && !(#[trigger] windows[i]).1.cold ==> hot.contains(i)
        }),
        first_homeless_window(windows, n) is None <==> forall|i: int|
            0 <= i < n && !(#[trigger] windows[i]).1.cold ==> !is_homeless(
                windows[i].1.assignment.primary,
            ),
    decreases n,
{
    if n > 0 {
        lemma_hot(windows, n - 1);
        let before = hot_windows(windows, n - 1);
        let hot = hot_windows(windows, n);
        assert forall|i: int| 0 <= i < n && !(#[trigger] windows[i]).1.cold implies hot.contains(i) by {
            if i < n - 1 {
                let k = choose|k: int| 0 <= k < before.len() && before[k] == i;
                assert(hot[k] == i);
            } else {
                assert(hot[before.len() as int] == i);
            }
        }
        if first_homeless_window(windows, n - 1) is None && first_homeless_window(
            windows,
            n,
        ) is Some {
            assert(!windows[n - 1].1.cold && is_homeless(windows[n - 1].1.assignment.primary));
        }
    }
}

/// A reindex rebuilds every window of a windowed index that is not parked, in their order, on its
/// primary, and no other. It is refused where there is none, or where one has no primary. `at` tells
/// which window each unit is.
pub proof fn lemma_windows_are_rebuilt(
    index: &str,
    p: IndexPlacement,
    r: Result<Vec<Unit>, Status>,
) -> (at: Seq<int>)
    requires
        call_ensures(plan_reindex_shards, (index, true, Some(&p)), r),
    ensures
        r is Ok <==> (exists|k: int| 0 <= k < p.windows@.len() && !(#[trigger] p.windows@[k]).1.cold)
            && forall|k: int|
            0 <= k < p.windows@.len() && !(#[trigger] p.windows@[k]).1.cold ==> !is_homeless(
                p.windows@[k].1.assignment.primary,
            ),
        r matches Ok(units) ==> {
            &&& at.len() == units@.len()
            &&& forall|k: int|
                0 <= k < at.len() ==> 0 <= #[trigger] at[k] < p.windows@.len()
                    && !p.windows@[at[k]].1.cold
            &&& forall|j: int, k: int| 0 <= j < k < at.len() ==> #[trigger] at[j] < #[trigger] at[k]
            &&& forall|i: int|
                0 <= i < p.windows@.len() && !(#[trigger] p.windows@[i]).1.cold ==> at.contains(i)
            &&& forall|k: int|
                #![trigger units@[k]]
                0 <= k < at.len() ==> units@[k].ordinal == 0 && units@[k].window
                    == p.windows@[at[k]].0 && rebuilt_on(
                    units@[k],
                    p.windows@[at[k]].1.assignment.primary,
                )
        },
        r matches Err(e) ==> e.code == Code::FailedPrecondition,
{
    let n = p.windows@.len() as int;
    lemma_hot(p.windows@, n);
    let hot = hot_windows(p.windows@, n);
    if hot.len() > 0 {
        assert(!p.windows@[hot[0]].1.cold);
    }
    if let Ok(units) = r {
        assert forall|k: int|
            #![trigger units@[k]]
            0 <= k < hot.len() implies units@[k].ordinal == 0 && units@[k].window
            == p.windows@[hot[k]].0 && rebuilt_on(
            units@[k],
            p.windows@[hot[k]].1.assignment.primary,
        ) by {
            assert(0 <= hot[k] < n);
        }
    }
    hot
}

/// Whether a node said that it has too little free disk.
pub open spec fn said_short(probe: Option<DiskProbe>) -> bool {
    probe matches Some(p) && p.probed && !p.ok
}

proof fn lemma_short(units: Seq<Unit>, probes: Seq<Option<DiskProbe>>, n: int)
    requires
        0 <= n <= probes.len(),
    ensures
        short_texts(units, probes, n).len() == 0 <==> forall|i: int|
            0 <= i < n ==> !said_short(#[trigger] probes[i]),
    decreases n,
{
    if n > 0 {
        lemma_short(units, probes, n - 1);
        if said_short(probes[n - 1]) {
            assert(short_texts(units, probes, n).len() > 0);
        }
    }
}

/// A reindex is refused for want of disk exactly where a node found out that it has too little. One
/// that was not reached, or could not find out, holds nothing up.
pub proof fn lemma_want_of_disk(
    index: &str,
    units: Vec<Unit>,
    probes: Vec<Option<DiskProbe>>,
    r: Result<(), Status>,
)
    requires
        call_ensures(precheck_reindex_disk, (index, &units, &probes), r),
        units@.len() == probes@.len(),
    ensures
        r is Ok <==> forall|i: int| 0 <= i < probes@.len() ==> !said_short(#[trigger] probes@[i]),
        r matches Err(e) ==> e.code == Code::FailedPrecondition,
{
    lemma_short(units@, probes@, units@.len() as int);
}

/// Whether an endpoint is this scheme, this host and this port, with a colon before the port.
pub open spec fn is_address(s: Seq<char>, scheme: Seq<char>, host: Seq<char>, port: Seq<char>) -> bool {
    &&& s == scheme + host + seq![':'] + port
    &&& scheme.len() == 0 || scheme == "http://"@ || scheme == "https://"@
    &&& host.len() > 0
    &&& forall|i: int| 0 <= i < host.len() ==> #[trigger] host[i] != '/'
}

/// Whether a text is digits of a number up to 65535.
pub open spec fn is_port_number(s: Seq<char>) -> bool {
    &&& s.len() > 0
    &&& forall|i: int| 0 <= i < s.len() ==> '0' <= #[trigger] s[i] <= '9'
    &&& number_of(s, 10) <= 65535
}

proof fn lemma_number(s: Seq<char>)
    ensures
        number(s) is Some <==> forall|i: int| 0 <= i < s.len() ==> '0' <= #[trigger] s[i] <= '9',
        number(s) is Some ==> number(s)->0 == number_of(s, 10),
    decreases s.len(),
{
    reveal(Seq::fold_left);
    if s.len() > 0 {
        let rest = s.drop_last();
        lemma_number(rest);
        assert(forall|i: int| 0 <= i < rest.len() ==> rest[i] == s[i]);
        if number(s) is Some {
            assert forall|i: int| 0 <= i < s.len() implies '0' <= #[trigger] s[i] <= '9' by {
                if i < rest.len() {
                    assert('0' <= rest[i] <= '9');
                }
            }
        }
        if forall|i: int| 0 <= i < s.len() ==> '0' <= #[trigger] s[i] <= '9' {
            assert('0' <= s[s.len() - 1] <= '9');
        }
    }
}

/// An endpoint that is accepted is a host and a port, after a scheme perhaps, without white space.
pub proof fn lemma_accepted_endpoint(endpoint: &str, r: Result<(), Status>) -> (parts: (
    Seq<char>,
    Seq<char>,
    Seq<char>,
))
    requires
        call_ensures(validate_endpoint, (endpoint,), r),
    ensures
        r is Ok ==> {
            &&& is_address(endpoint@, parts.0, parts.1, parts.2)
            &&& is_port_number(parts.2) || (parts.2.len() > 0 && parts.2[0] == '+'
                && is_port_number(parts.2.drop_first()))
            &&& forall|i: int| 0 <= i < endpoint@.len() ==> !is_whitespace(#[trigger] endpoint@[i])
        },
        r matches Err(e) ==> e.code == Code::InvalidArgument,
{
    let s = endpoint@;
    let rest = after_scheme(s);
    let at = choose|i: int| last_at(rest, ':', i);
    let host = rest.take(at);
    let port = rest.skip(at + 1);
    let scheme = s.take(s.len() - rest.len());
    if r is Ok {
        lemma_last_exists(rest, ':');
        assert(rest =~= host + seq![':'] + port);
        assert(rest.subrange(at + 1, rest.len() as int) =~= port);
        lemma_number(port);
        if port.len() > 0 {
            lemma_number(port.drop_first());
        }
        if "http://"@.is_prefix_of(s) {
            assert(scheme =~= "http://"@);
        } else if "https://"@.is_prefix_of(s) {
            assert(scheme =~= "https://"@);
        } else {
            assert(scheme.len() == 0);
        }
        assert(s =~= scheme + rest);
        assert(s =~= scheme + host + seq![':'] + port);
        assert forall|i: int| 0 <= i < host.len() implies #[trigger] host[i] != '/' by {
            assert(rest[i] == host[i]);
        }
    }
    (scheme, host, port)
}

proof fn lemma_last_exists(s: Seq<char>, c: char)
    requires
        s.contains(c),
    ensures
        exists|i: int| last_at(s, c, i),
    decreases s.len(),
{
    let n = s.len() - 1;
    if s[n] == c {
        assert(last_at(s, c, n));
    } else {
        let k = choose|k: int| 0 <= k < s.len() && s[k] == c;
        assert(s.drop_last()[k] == c);
        lemma_last_exists(s.drop_last(), c);
        let i = choose|i: int| last_at(s.drop_last(), c, i);
        assert(last_at(s, c, i)) by {
            assert(s.drop_last()[i] == s[i]);
            assert forall|j: int| i < j < s.len() implies s[j] != c by {
                if j < n {
                    assert(s.drop_last()[j] == s[j]);
                }
            }
        }
    }
}

/// Every host and port makes an endpoint that is accepted, with or without a scheme, where there is no
/// white space in it.
pub proof fn lemma_address_is_accepted(
    endpoint: &str,
    r: Result<(), Status>,
    scheme: Seq<char>,
    host: Seq<char>,
    port: Seq<char>,
)
    requires
        call_ensures(validate_endpoint, (endpoint,), r),
        is_address(endpoint@, scheme, host, port),
        is_port_number(port),
        forall|i: int| 0 <= i < endpoint@.len() ==> !is_whitespace(#[trigger] endpoint@[i]),
    ensures
        r is Ok,
{
    let s = endpoint@;
    let rest = host + seq![':'] + port;
    assert(s =~= scheme + rest);
    reveal_strlit("http://");
    reveal_strlit("https://");
    assert("http://"@[5] == '/');
    assert("https://"@[6] == '/');
    assert("http://"@[4] == ':');
    assert("https://"@[4] == 's');
    assert forall|i: int| 0 <= i < rest.len() implies #[trigger] rest[i] != '/' by {
        if i < host.len() {
            assert(rest[i] == host[i]);
        } else if i > host.len() {
            assert(rest[i] == port[i - host.len() - 1]);
        }
    }
    if scheme.len() == 0 {
        assert(s =~= rest);
        if "http://"@.is_prefix_of(s) {
            assert(s[5] == '/');
        }
        if "https://"@.is_prefix_of(s) {
            assert(s[6] == '/');
        }
    } else if scheme == "http://"@ {
        lemma_after(s, scheme, rest);
    } else {
        lemma_after(s, scheme, rest);
        if "http://"@.is_prefix_of(s) {
            assert(s[4] == "http://"@[4]);
            assert(s[4] == scheme[4]);
        }
    }
    assert(after_scheme(s) == rest);
    assert(!rest.contains('/'));
    assert(rest[host.len() as int] == ':');
    assert(rest.contains(':'));
    assert forall|j: int| host.len() < j < rest.len() implies rest[j] != ':' by {
        assert(rest[j] == port[j - host.len() - 1]);
    }
    assert(last_at(rest, ':', host.len() as int));
    let at = choose|i: int| last_at(rest, ':', i);
    assert(last_at(rest, ':', at));
    assert(at == host.len());
    assert(rest.subrange(at + 1, rest.len() as int) =~= port);
    lemma_number(port);
    assert('0' <= port[0] <= '9');
}

/// A reindex of one unit that is refused for want of disk tells the unit, its node, and how much it
/// needs and has: a window by its id, and else a shard by its ordinal.
pub proof fn lemma_want_of_disk_tells(
    index: &str,
    units: Vec<Unit>,
    probes: Vec<Option<DiskProbe>>,
    r: Result<(), Status>,
) -> (digits: (Seq<char>, Seq<char>, Seq<char>))
    requires
        call_ensures(precheck_reindex_disk, (index, &units, &probes), r),
        units@.len() == 1,
        probes@.len() == 1,
        said_short(probes@[0]),
        units@[0].window >= 0,
    ensures
        ({
            let u = units@[0];
            &&& r matches Err(e) && e.message@ == "insufficient free disk to reindex `"@ + index@
                + "` on "@ + seq!['1'] + " node(s): "@ + ((if u.window > 0 {
                "window "@
            } else {
                "shard "@
            }) + digits.0 + " on "@ + u.node@ + ": need ~"@ + digits.1 + " bytes, only "@ + digits.2
                + " free"@)
            &&& u.window > 0 ==> number_of(digits.0, 10) == u.window
            &&& u.window == 0 ==> number_of(digits.0, 10) == u.ordinal
            &&& number_of(digits.1, 10) == probes@[0]->0.needed_bytes
            &&& number_of(digits.2, 10) == probes@[0]->0.free_bytes
        }),
{
    let u = units@[0];
    let p = probes@[0]->0;
    let n = if u.window > 0 {
        u.window as nat
    } else {
        u.ordinal as nat
    };
    lemma_decimal_says(n);
    lemma_decimal_says(p.needed_bytes as nat);
    lemma_decimal_says(p.free_bytes as nat);
    reveal_with_fuel(short_texts, 2);
    let short = short_texts(units@, probes@, 1);
    assert(short =~= seq![crate::placement::short_text(u, p)]);
    assert(joined(short, "; "@) == short[0]);
    assert(decimal(1) =~= seq!['1']);
    (decimal(n), decimal(p.needed_bytes as nat), decimal(p.free_bytes as nat))
}

} // verus!
