//! The gateway in front of an index: who may call it, which shards a call goes to, and what is
//! asked of each.
use tonic::metadata::MetadataMap;
use vstd::prelude::*;
use vstd::string::*;

use crate::auth::{answered, authorize, context_of, AuthDenied, SharedAuth};
use crate::authn::{
    admitted, authenticate, bare, identity_key, identity_value, lemma_no_forged_identity,
    strip_identity, stripped, AuthnErrorView, SharedAuthn, Verified, VerifiedView,
};
use crate::metadata::{contents, header, AUTHORIZATION_KEY};
use crate::status::{Status, StatusView};

verus! {

/// What a gateway allows a call to cost.
#[derive(Debug, Clone, Copy)]
pub struct GatewayLimits {
    /// How long the shards may take, in milliseconds; none waits for all of them.
    pub deadline_ms: Option<u64>,
    /// The most that `offset + limit` of a search may be; 0 is unbounded.
    pub max_fetch: usize,
    /// How many calls to shards may be under way at once; 0 is unbounded.
    pub max_concurrent_fanout: usize,
}

impl Default for GatewayLimits {
    fn default() -> (l: GatewayLimits)
        ensures
            l.deadline_ms == Some(30_000u64),
            l.max_fetch == 10_000,
            l.max_concurrent_fanout == 256,
    {
        GatewayLimits { deadline_ms: Some(30_000), max_fetch: 10_000, max_concurrent_fanout: 256 }
    }
}

impl GatewayLimits {
    /// How many calls to shards may be under way at once, where that is bounded.
    pub fn fanout_bound(&self) -> (b: Option<usize>)
        ensures
            b == (if self.max_concurrent_fanout == 0 {
                None::<usize>
            } else {
                Some(self.max_concurrent_fanout)
            }),
    {
        if self.max_concurrent_fanout == 0 {
            None
        } else {
            Some(self.max_concurrent_fanout)
        }
    }
}

/// The window that a shard holds: its id and, where known, the bounds of its event times.
#[derive(Debug, Clone, Copy)]
pub struct WindowSlot {
    pub window: i64,
    pub zone: Option<(i64, i64)>,
}

/// A gateway over the shards of one index.
pub struct Gateway {
    /// How many shards there are.
    pub shards: usize,
    /// On a windowed index, the window of each shard.
    pub windows: Option<Vec<WindowSlot>>,
    pub limits: GatewayLimits,
    pub authn: Option<SharedAuthn>,
    pub password_login: bool,
    pub authz: Option<SharedAuth>,
    /// The windows that are read through from object storage, where the gateway was told.
    pub cold: Option<Vec<i64>>,
    /// The index that is served; none serves whatever a request names.
    pub served_index: Option<String>,
    /// The keyword fields that the index is partitioned by.
    pub partition_fields: Vec<String>,
}

impl Gateway {
    /// Whether each shard of a windowed gateway has its window, and any other gateway a shard.
    pub open spec fn wf(&self) -> bool {
        &&& self.shards <= u32::MAX
        &&& match self.windows {
            Some(w) => w@.len() == self.shards,
            None => self.shards > 0,
        }
    }

    /// Whether nothing but the shards was configured.
    pub open spec fn unconfigured(&self) -> bool {
        &&& self.limits.deadline_ms == Some(30_000u64)
        &&& self.limits.max_fetch == 10_000
        &&& self.limits.max_concurrent_fanout == 256
        &&& self.authn is None
        &&& !self.password_login
        &&& self.authz is None
        &&& self.cold is None
        &&& self.served_index is None
        &&& self.partition_fields@.len() == 0
    }

    fn over(shards: usize, windows: Option<Vec<WindowSlot>>) -> (g: Gateway)
        ensures
            g.shards == shards,
            g.windows == windows,
            g.unconfigured(),
    {
        Gateway {
            shards,
            windows,
            limits: GatewayLimits::default(),
            authn: None,
            password_login: false,
            authz: None,
            cold: None,
            served_index: None,
            partition_fields: Vec::new(),
        }
    }

    /// A gateway over one shard.
    pub fn new() -> (g: Gateway)
        ensures
            g.wf(),
            g.shards == 1,
            g.windows is None,
            g.unconfigured(),
    {
        Gateway::over(1, None)
    }

    /// A gateway over `shards` shards that are routed to by the hash of the key.
    pub fn sharded(shards: usize) -> (g: Gateway)
        requires
            0 < shards <= u32::MAX,
        ensures
            g.wf(),
            g.shards == shards,
            g.windows is None,
            g.unconfigured(),
    {
        Gateway::over(shards, None)
    }

    /// A gateway over `shards` shards with a router for as many.
    pub fn sharded_with(shards: usize, router_shards: u32) -> (g: Gateway)
        requires
            shards > 0,
            router_shards == shards,
        ensures
            g.wf(),
            g.shards == shards,
            g.windows is None,
            g.unconfigured(),
    {
        Gateway::over(shards, None)
    }

    /// A gateway over one shard per window.
    pub fn windowed(windows: Vec<WindowSlot>) -> (g: Gateway)
        requires
            windows@.len() <= u32::MAX,
        ensures
            g.wf(),
            g.shards == windows@.len(),
            g.windows == Some(windows),
            g.unconfigured(),
    {
        let shards: usize = windows.len();
        Gateway::over(shards, Some(windows))
    }

    /// Names the keyword fields that the index is partitioned by.
    pub fn with_partition_fields(self, fields: Vec<String>) -> (g: Gateway)
        ensures
            g == (Gateway { partition_fields: fields, ..self }),
    {
        let mut g = self;
        g.partition_fields = fields;
        g
    }

    /// Sets what a call may cost.
    pub fn with_limits(self, limits: GatewayLimits) -> (g: Gateway)
        ensures
            g == (Gateway { limits, ..self }),
    {
        let mut g = self;
        g.limits = limits;
        g
    }

    /// Serves `index` and no other.
    pub fn serving(self, index: String) -> (g: Gateway)
        ensures
            g == (Gateway { served_index: Some(index), ..self }),
    {
        let mut g = self;
        g.served_index = Some(index);
        g
    }

    /// Authenticates every call.
    pub fn with_authn(self, authn: SharedAuthn) -> (g: Gateway)
        ensures
            g == (Gateway { authn: Some(authn), ..self }),
    {
        let mut g = self;
        g.authn = Some(authn);
        g
    }

    /// Says whether callers can log in by password.
    pub fn with_password_login(self, on: bool) -> (g: Gateway)
        ensures
            g == (Gateway { password_login: on, ..self }),
    {
        let mut g = self;
        g.password_login = on;
        g
    }

    /// Whether callers can log in by password.
    pub fn password_login(&self) -> (b: bool)
        ensures
            b == self.password_login,
    {
        self.password_login
    }

    /// Authorizes every call by a policy.
    pub fn with_authz(self, authz: SharedAuth) -> (g: Gateway)
        ensures
            g == (Gateway { authz: Some(authz), ..self }),
    {
        let mut g = self;
        g.authz = Some(authz);
        g
    }

    /// Names the windows that are read through from object storage.
    pub fn with_cold_tier(self, cold_windows: Vec<i64>) -> (g: Gateway)
        ensures
            g == (Gateway { cold: Some(cold_windows), ..self }),
    {
        let mut g = self;
        g.cold = Some(cold_windows);
        g
    }

    /// Takes over a new set of shards, and a router for as many. A set without shards, or one
    /// that the router does not fit, is not taken over: the present one can still be served.
    pub fn swap_routing(&mut self, shards: usize, router_shards: u32) -> (taken: bool)
        requires
            old(self).wf(),
        ensures
            final(self).wf(),
            taken == (shards > 0 && router_shards == shards),
            *final(self) == (if taken {
                Gateway { shards, windows: None, ..*old(self) }
            } else {
                *old(self)
            }),
    {
        if shards == 0 || router_shards as u64 != shards as u64 {
            return false;
        }
        self.shards = shards;
        self.windows = None;
        true
    }

    /// Takes over a new set of windows, one per shard, under the same conditions.
    pub fn swap_windowed(&mut self, shards: usize, windows: Vec<WindowSlot>) -> (taken: bool)
        requires
            old(self).wf(),
            shards <= u32::MAX,
        ensures
            final(self).wf(),
            taken == (shards > 0 && windows@.len() == shards),
            *final(self) == (if taken {
                Gateway { shards, windows: Some(windows), ..*old(self) }
            } else {
                *old(self)
            }),
    {
        if shards == 0 || shards != windows.len() {
            return false;
        }
        self.shards = shards;
        self.windows = Some(windows);
        true
    }

    /// How many shards there are.
    pub fn shard_count(&self) -> (n: usize)
        ensures
            n == self.shards,
    {
        self.shards
    }

    /// Whether calls must be authenticated.
    pub fn auth_required(&self) -> (b: bool)
        ensures
            b == self.authn is Some,
    {
        match self.authn {
            Some(_) => true,
            None => false,
        }
    }
}

/// What comes of authenticating a call: the metadata after it, and the refusal, if any. Without
/// an authenticator the call goes on without any identity.
pub open spec fn authenticated(
    authn: Option<SharedAuthn>,
    before: Map<Seq<char>, Seq<u8>>,
    after: Map<Seq<char>, Seq<u8>>,
    refusal: Option<StatusView>,
) -> bool {
    match authn {
        None => after == stripped(before) && refusal is None,
        Some(a) => exists|answer: Result<VerifiedView, AuthnErrorView>, r: Result<Verified, Status>|
            #![trigger a.may_yield(header(before, AUTHORIZATION_KEY@), answer), admitted(before, answer, after, r)]
            a.may_yield(header(before, AUTHORIZATION_KEY@), answer) && admitted(
                before,
                answer,
                after,
                r,
            ) && refusal == (match r {
                Ok(_) => None,
                Err(s) => Some(s@),
            }),
    }
}

/// What comes of authorizing a call with metadata `md`.
pub open spec fn authorized(
    authz: Option<SharedAuth>,
    method: Seq<char>,
    md: Map<Seq<char>, Seq<u8>>,
    r: Result<(), Status>,
) -> bool {
    match authz {
        None => r is Ok,
        Some(z) => exists|answer: Result<(), AuthDenied>| #[trigger]
            z.may_answer(context_of(method, None, md), answer) && answered(r, answer),
    }
}

/// What comes of guarding a call: it is authenticated, and the policy is asked about the
/// identity that was verified.
pub open spec fn guarded(
    g: Gateway,
    method: Seq<char>,
    before: Map<Seq<char>, Seq<u8>>,
    after: Map<Seq<char>, Seq<u8>>,
    r: Result<(), Status>,
) -> bool {
    exists|refusal: Option<StatusView>| #[trigger]
        authenticated(g.authn, before, after, refusal) && match refusal {
            Some(s) => r matches Err(e) && e@ == s,
            None => authorized(g.authz, method, after, r),
        }
}

impl Gateway {
    /// Authenticates a call and asks the policy about it. The metadata is left with a verified
    /// identity or none.
    pub fn guard(&self, method: &'static str, md: &mut MetadataMap) -> (r: Result<(), Status>)
        ensures
            guarded(*self, method@, contents(*old(md)), contents(*final(md)), r),
    {
        let ghost before = contents(*md);
        match &self.authn {
            Some(a) => {
                let who = authenticate(a, md);
                proof {
                    let answer = choose|answer: Result<VerifiedView, AuthnErrorView>| #[trigger]
                        a.may_yield(header(before, AUTHORIZATION_KEY@), answer) && admitted(
                            before,
                            answer,
                            contents(*md),
                            who,
                        );
                    assert(a.may_yield(header(before, AUTHORIZATION_KEY@), answer) && admitted(
                        before,
                        answer,
                        contents(*md),
                        who,
                    ));
                }
                match who {
                    Ok(_) => {
                        assert(authenticated(self.authn, before, contents(*md), None));
                    },
                    Err(e) => {
                        assert(authenticated(self.authn, before, contents(*md), Some(e@)));
                        return Err(e);
                    },
                }
            },
            None => {
                strip_identity(md);
                assert(authenticated(self.authn, before, contents(*md), None));
            },
        }
        match &self.authz {
            Some(z) => authorize(z, method, md),
            None => Ok(()),
        }
    }

    /// The identity of a caller. An open gateway answers with the anonymous one.
    pub fn identity(&self, md: &mut MetadataMap) -> (r: Result<Verified, Status>)
        ensures
            match self.authn {
                None => contents(*final(md)) == contents(*old(md)) && (r matches Ok(v) && v@ == bare(
                    Seq::empty(),
                )),
                Some(a) => exists|answer: Result<VerifiedView, AuthnErrorView>| #[trigger]
                    a.may_yield(header(contents(*old(md)), AUTHORIZATION_KEY@), answer) && admitted(
                        contents(*old(md)),
                        answer,
                        contents(*final(md)),
                        r,
                    ),
            },
    {
        match &self.authn {
            Some(a) => authenticate(a, md),
            None => Ok(Verified::anonymous()),
        }
    }
}

/// The shards never see an identity that a caller asserted: once a call has passed, what it
/// carries under an identity key is what the authenticator verified, and without an authenticator
/// it carries none.
pub proof fn lemma_passed_identity_is_verified(
    g: Gateway,
    method: Seq<char>,
    before: Map<Seq<char>, Seq<u8>>,
    after: Map<Seq<char>, Seq<u8>>,
    r: Result<(), Status>,
    key: Seq<char>,
)
    requires
        guarded(g, method, before, after, r),
        r is Ok,
        identity_key(key),
    ensures
        g.authn is None ==> !after.contains_key(key),
        g.authn matches Some(a) ==> (after.contains_key(key) ==> exists|v: VerifiedView| #[trigger]
            a.may_yield(header(before, AUTHORIZATION_KEY@), Ok(v)) && identity_value(v, key) == Some(
                after[key],
            )),
{
    if let Some(a) = g.authn {
        let (answer, admission) = choose|
            answer: Result<VerifiedView, AuthnErrorView>,
            admission: Result<Verified, Status>,
        |
            #![trigger a.may_yield(header(before, AUTHORIZATION_KEY@), answer), admitted(before, answer, after, admission)]
            a.may_yield(header(before, AUTHORIZATION_KEY@), answer) && admitted(
                before,
                answer,
                after,
                admission,
            ) && admission is Ok;
        let v = answer->Ok_0;
        lemma_no_forged_identity(before, v, key);
        assert(a.may_yield(header(before, AUTHORIZATION_KEY@), Ok(v)));
    }
}

/// A call whose credential the authenticator cannot answer with an identity is refused.
pub proof fn lemma_unverified_is_refused(
    g: Gateway,
    a: SharedAuthn,
    method: Seq<char>,
    before: Map<Seq<char>, Seq<u8>>,
    after: Map<Seq<char>, Seq<u8>>,
    r: Result<(), Status>,
)
    requires
        guarded(g, method, before, after, r),
        g.authn == Some(a),
        forall|answer: Result<VerifiedView, AuthnErrorView>| #[trigger]
            a.may_yield(header(before, AUTHORIZATION_KEY@), answer) ==> answer is Err,
    ensures
        r is Err,
        after == before,
{
}

/// One window's tier.
#[derive(Debug, Clone, Copy, PartialEq, Eq)]
pub struct WindowStatus {
    pub window: i64,
    /// Whether the window is read through from object storage.
    pub cold: bool,
    pub event_min: Option<i64>,
    pub event_max: Option<i64>,
}

/// The tiers of a windowed gateway's windows.
#[derive(Debug)]
pub struct ColdStatus {
    pub windows: Vec<WindowStatus>,
    /// Whether there is a cache of what was read through to report on: some window is cold.
    pub cached: bool,
    pub hot: usize,
    pub cold: usize,
}

/// The tier of one window, where `cold` names the cold ones.
pub open spec fn tier_of(slot: WindowSlot, cold: Option<Seq<i64>>) -> WindowStatus {
    WindowStatus {
        window: slot.window,
        cold: cold is Some && cold->0.contains(slot.window),
        event_min: match slot.zone {
            Some(z) => Some(z.0),
            None => None,
        },
        event_max: match slot.zone {
            Some(z) => Some(z.1),
            None => None,
        },
    }
}

/// How many of the first `n` windows are cold.
pub open spec fn cold_count(windows: Seq<WindowStatus>, n: int) -> nat
    decreases n,
{
    if n <= 0 {
        0
    } else {
        cold_count(windows, n - 1) + (if windows[n - 1].cold {
            1nat
        } else {
            0
        })
    }
}

/// Whether `status` shows the tiers of `slots`.
pub open spec fn shows_tiers(
    status: ColdStatus,
    slots: Seq<WindowSlot>,
    cold: Option<Seq<i64>>,
) -> bool {
    &&& status.windows@.len() == slots.len()
    &&& forall|i: int| 0 <= i < slots.len() ==> #[trigger] status.windows@[i] == tier_of(slots[i], cold)
    &&& status.cached == (status.cold > 0)
    &&& status.cold == cold_count(status.windows@, slots.len() as int)
    &&& status.hot + status.cold == slots.len()
}

fn holds_id(ids: &Vec<i64>, id: i64) -> (b: bool)
    ensures
        b == ids@.contains(id),
{
    let mut i: usize = 0;
    while i < ids.len()
        invariant
            i <= ids@.len(),
            forall|k: int| 0 <= k < i ==> ids@[k] != id,
        decreases ids@.len() - i,
    {
        if ids[i] == id {
            return true;
        }
        i = i + 1;
    }
    false
}

proof fn lemma_cold_count_prefix(a: Seq<WindowStatus>, b: Seq<WindowStatus>, n: int)
    requires
        forall|k: int| 0 <= k < n ==> a[k] == b[k],
    ensures
        cold_count(a, n) == cold_count(b, n),
    decreases n,
{
    if n > 0 {
        lemma_cold_count_prefix(a, b, n - 1);
    }
}

impl Gateway {
    /// The cold windows, where the gateway was told of any.
    pub open spec fn cold_ids(&self) -> Option<Seq<i64>> {
        match self.cold {
            Some(c) => Some(c@),
            None => None,
        }
    }

    /// The tiers of the windows; none where the index is not windowed.
    pub fn cold_status(&self) -> (s: Option<ColdStatus>)
        ensures
            match self.windows {
                Some(slots) => s matches Some(status) && shows_tiers(
                    status,
                    slots@,
                    self.cold_ids(),
                ),
                None => s is None,
            },
    {
        let slots = match &self.windows {
            Some(w) => w,
            None => return None,
        };
        let ghost ids = self.cold_ids();
        let mut windows: Vec<WindowStatus> = Vec::new();
        let mut cold: usize = 0;
        let n: usize = slots.len();
        let mut i: usize = 0;
        while i < n
            invariant
                n == slots@.len(),
                i <= n,
                cold <= i,
                ids == self.cold_ids(),
                windows@.len() == i,
                forall|k: int| 0 <= k < i ==> #[trigger] windows@[k] == tier_of(slots@[k], ids),
                cold == cold_count(windows@, i as int),
            decreases n - i,
        {
            let slot = slots[i];
            let is_cold = match &self.cold {
                Some(c) => holds_id(c, slot.window),
                None => false,
            };
            let (event_min, event_max) = match slot.zone {
                Some(z) => (Some(z.0), Some(z.1)),
                None => (None, None),
            };
            let ghost was = windows@;
            windows.push(WindowStatus { window: slot.window, cold: is_cold, event_min, event_max });
            proof {
                lemma_cold_count_prefix(was, windows@, i as int);
            }
            if is_cold {
                cold = cold + 1;
            }
            i = i + 1;
        }
        Some(ColdStatus { windows, cached: cold > 0, hot: n - cold, cold })
    }
}

} // verus!
