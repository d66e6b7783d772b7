//! Permit budgets per resource class and the random trades that move
//! permits between classes.

use vstd::prelude::*;
use rand::seq::SliceRandom;
use rand::Rng;
use std::collections::HashMap;

verus! {

/// The classes of permits handed out by the resource manager.
#[derive(Clone, Copy, Debug, PartialEq, Eq, Hash, Structural)]
pub enum ResourceType {
    Reserve,
    PeerConnection,
    DiskRead,
    DiskWrite,
}

/// The number of permits of each class.
#[derive(Clone, Copy, Debug, PartialEq, Eq, Structural)]
pub struct CalculatedLimits {
    pub reserve_permits: usize,
    pub max_connected_peers: usize,
    pub disk_read_permits: usize,
    pub disk_write_permits: usize,
}

/// Lowest number of peer-connection permits a trade may leave behind.
pub const MIN_PEERS: usize = 20;
/// Lowest number of disk read (or write) permits a trade may leave behind.
pub const MIN_DISK: usize = 2;
/// Lowest number of reserve permits a trade may leave behind.
pub const MIN_RESERVE: usize = 0;
/// Number of random trades tried before one adjustment gives up.
pub const MAX_TRADE_ATTEMPTS: usize = 5;
/// Smallest trade step, in thousandths of the source's permits.
pub const MIN_STEP_PERMILLE: u64 = 10;
/// Largest trade step, in thousandths of the source's permits.
pub const MAX_STEP_PERMILLE: u64 = 100;

pub open spec fn limit_of(l: CalculatedLimits, r: ResourceType) -> int {
    match r {
        ResourceType::PeerConnection => l.max_connected_peers as int,
        ResourceType::DiskRead => l.disk_read_permits as int,
        ResourceType::DiskWrite => l.disk_write_permits as int,
        ResourceType::Reserve => l.reserve_permits as int,
    }
}

pub open spec fn with_limit(l: CalculatedLimits, r: ResourceType, v: usize) -> CalculatedLimits {
    match r {
        ResourceType::PeerConnection => CalculatedLimits { max_connected_peers: v, ..l },
        ResourceType::DiskRead => CalculatedLimits { disk_read_permits: v, ..l },
        ResourceType::DiskWrite => CalculatedLimits { disk_write_permits: v, ..l },
        ResourceType::Reserve => CalculatedLimits { reserve_permits: v, ..l },
    }
}

/// Sum of the permits over all classes.
pub open spec fn total_permits(l: CalculatedLimits) -> int {
    l.reserve_permits + l.max_connected_peers + l.disk_read_permits + l.disk_write_permits
}

/// The floor below which a trade never takes a class.
pub open spec fn floor_of(r: ResourceType) -> int {
    match r {
        ResourceType::PeerConnection => MIN_PEERS as int,
        ResourceType::DiskRead => MIN_DISK as int,
        ResourceType::DiskWrite => MIN_DISK as int,
        ResourceType::Reserve => MIN_RESERVE as int,
    }
}

pub open spec fn above_floors(l: CalculatedLimits) -> bool {
    forall|r: ResourceType| limit_of(l, r) >= floor_of(r)
}

/// Permits moved by a trade of `step` thousandths out of `source_val`:
/// the fraction rounded up, and at least one.
pub open spec fn trade_amount(source_val: int, step: int) -> int {
    let raw = (source_val * step + 999) / 1000;
    if raw < 1 { 1 } else { raw }
}

/// Whether moving `amount` permits from `source` to `dest` is allowed.
pub open spec fn trade_allowed(l: CalculatedLimits, source: ResourceType, dest: ResourceType, amount: int) -> bool {
    &&& source != dest
    &&& limit_of(l, source) >= floor_of(source) + amount
    &&& limit_of(l, dest) + amount <= usize::MAX
}

/// The limits after `amount` permits moved from `source` to `dest`.
pub open spec fn traded(l: CalculatedLimits, source: ResourceType, dest: ResourceType, amount: int) -> CalculatedLimits {
    with_limit(
        with_limit(l, source, (limit_of(l, source) - amount) as usize),
        dest,
        (limit_of(l, dest) + amount) as usize,
    )
}

impl CalculatedLimits {
    pub fn into_map(self) -> (r: HashMap<ResourceType, usize>)
        ensures
            vstd::std_specs::hash::obeys_key_model::<ResourceType>()
                ==> r@ == map![
                    ResourceType::Reserve => self.reserve_permits,
                    ResourceType::PeerConnection => self.max_connected_peers,
                    ResourceType::DiskRead => self.disk_read_permits,
                    ResourceType::DiskWrite => self.disk_write_permits,
                ],
    {
        let mut map = HashMap::new();
        map.insert(ResourceType::Reserve, self.reserve_permits);
        map.insert(ResourceType::PeerConnection, self.max_connected_peers);
        map.insert(ResourceType::DiskRead, self.disk_read_permits);
        map.insert(ResourceType::DiskWrite, self.disk_write_permits);
        proof {
            if vstd::std_specs::hash::obeys_key_model::<ResourceType>() {
                assert(map@ =~= map![
                    ResourceType::Reserve => self.reserve_permits,
                    ResourceType::PeerConnection => self.max_connected_peers,
                    ResourceType::DiskRead => self.disk_read_permits,
                    ResourceType::DiskWrite => self.disk_write_permits,
                ]);
            }
        }
        map
    }
}

impl Default for CalculatedLimits {
    fn default() -> (r: Self)
        ensures
            total_permits(r) == 0,
    {
        CalculatedLimits {
            reserve_permits: 0,
            max_connected_peers: 0,
            disk_read_permits: 0,
            disk_write_permits: 0,
        }
    }
}

pub fn get_limit(limits: &CalculatedLimits, resource: ResourceType) -> (r: usize)
    ensures
        r == limit_of(*limits, resource),
{
    match resource {
        ResourceType::PeerConnection => limits.max_connected_peers,
        ResourceType::DiskRead => limits.disk_read_permits,
        ResourceType::DiskWrite => limits.disk_write_permits,
        ResourceType::Reserve => limits.reserve_permits,
    }
}

pub fn set_limit(limits: &mut CalculatedLimits, resource: ResourceType, value: usize)
    ensures
        *final(limits) == with_limit(*old(limits), resource, value),
{
    match resource {
        ResourceType::PeerConnection => limits.max_connected_peers = value,
        ResourceType::DiskRead => limits.disk_read_permits = value,
        ResourceType::DiskWrite => limits.disk_write_permits = value,
        ResourceType::Reserve => limits.reserve_permits = value,
    }
}

/// Minimum permits a trade may leave in a class.
pub fn floor_for(resource: ResourceType) -> (r: usize)
    ensures
        r == floor_of(resource),
{
    match resource {
        ResourceType::PeerConnection => MIN_PEERS,
        ResourceType::DiskRead => MIN_DISK,
        ResourceType::DiskWrite => MIN_DISK,
        ResourceType::Reserve => MIN_RESERVE,
    }
}

/// How one call of `make_random_adjustment` ended.
#[derive(Clone, Copy, Debug, PartialEq, Eq, Structural)]
pub enum TradeOutcome {
    /// `amount` permits moved from `source` to `dest` on attempt `attempt` (from 1).
    Traded { amount: usize, source: ResourceType, dest: ResourceType, attempt: usize },
    /// No attempt found a trade within the bounds; the limits are unchanged.
    Skipped,
}

/// Moves `ceil(source × step_permille / 1000)` permits (at least one) from
/// `source` to `dest` when the source stays at or above its floor and the
/// classes differ; otherwise leaves the limits as they are.
pub fn try_trade(limits: &mut CalculatedLimits, source: ResourceType, dest: ResourceType, step_permille: u64) -> (r: Option<usize>)
    requires
        MIN_STEP_PERMILLE <= step_permille <= MAX_STEP_PERMILLE,
    ensures
        ({
            let amount = trade_amount(limit_of(*old(limits), source), step_permille as int);
            match r {
                Some(a) => a == amount && trade_allowed(*old(limits), source, dest, amount)
                    && *final(limits) == traded(*old(limits), source, dest, amount),
                None => !trade_allowed(*old(limits), source, dest, amount)
                    && *final(limits) == *old(limits),
            }
        }),
{
    let source_val = get_limit(limits, source);
    let dest_val = get_limit(limits, dest);
    let source_min = floor_for(source);
    assert(source_val as u128 * step_permille as u128 <= usize::MAX as u128 * 100) by (nonlinear_arith)
        requires step_permille <= 100;
    let product: u128 = source_val as u128 * step_permille as u128;
    let raw: u128 = (product + 999) / 1000;
    assert(raw <= source_val as u128) by (nonlinear_arith)
        requires raw == (product + 999) / 1000, product == source_val as u128 * step_permille as u128,
            step_permille <= 100;
    let amount: usize = if raw < 1 { 1 } else { raw as usize };
    if source == dest || source_val < source_min || source_val - source_min < amount
        || dest_val > usize::MAX - amount {
        return None;
    }
    set_limit(limits, source, source_val - amount);
    set_limit(limits, dest, dest_val + amount);
    Some(amount)
}

/// rand's thread-local generator, carried through as an opaque value.
#[verifier::external_type_specification]
#[verifier::external_body]
pub struct ExThreadRng(rand::rngs::ThreadRng);

/// Relies on rand::rng: a handle on the thread-local generator.
#[verifier::external_body]
pub(crate) fn thread_rng() -> rand::rngs::ThreadRng {
    rand::rng()
}

/// Relies on rand's SliceRandom::shuffle: the slice is permuted in place.
#[verifier::external_body]
fn shuffle_resources(kinds: &mut [ResourceType; 4], rng: &mut rand::rngs::ThreadRng)
    ensures
        final(kinds)@.to_multiset() == old(kinds)@.to_multiset(),
{
    kinds.shuffle(rng)
}

/// Relies on rand's Rng::random_range: a value of the inclusive range `lo..=hi`.
#[verifier::external_body]
pub(crate) fn random_in(rng: &mut rand::rngs::ThreadRng, lo: u64, hi: u64) -> (r: u64)
    requires
        lo <= hi,
    ensures
        lo <= r <= hi,
{
    rng.random_range(lo..=hi)
}

/// Every trade between two different classes, at every allowed step, stays
/// within the bounds.
pub open spec fn all_trades_allowed(l: CalculatedLimits) -> bool {
    forall|s: ResourceType, d: ResourceType, step: int|
        s != d && MIN_STEP_PERMILLE <= step <= MAX_STEP_PERMILLE
            ==> #[trigger] trade_allowed(l, s, d, trade_amount(limit_of(l, s), step))
}

pub open spec fn all_kinds() -> Seq<ResourceType> {
    seq![ResourceType::PeerConnection, ResourceType::DiskRead, ResourceType::DiskWrite, ResourceType::Reserve]
}

proof fn lemma_first_two_differ(s: Seq<ResourceType>)
    requires
        s.len() == 4,
        s.to_multiset() == all_kinds().to_multiset(),
    ensures
        s[0] != s[1],
{
    broadcast use vstd::seq_lib::group_to_multiset_ensures, vstd::multiset::group_multiset_axioms;
    let k = all_kinds();
    assert(k =~= Seq::<ResourceType>::empty().push(k[0]).push(k[1]).push(k[2]).push(k[3]));
    assert(s =~= Seq::<ResourceType>::empty().push(s[0]).push(s[1]).push(s[2]).push(s[3]));
    if s[0] == s[1] {
        let x = s[0];
        assert(s.to_multiset().count(x) >= 2);
        assert(k.to_multiset().count(x) <= 1);
    }
}

/// Makes a random proportional trade between two classes, trying up to
/// `MAX_TRADE_ATTEMPTS` random picks before giving up.
pub fn make_random_adjustment(limits: CalculatedLimits) -> (r: (CalculatedLimits, TradeOutcome))
    ensures
        total_permits(r.0) == total_permits(limits),
        forall|k: ResourceType| limit_of(r.0, k) >= floor_of(k) || limit_of(r.0, k) >= limit_of(limits, k),
        match r.1 {
            TradeOutcome::Traded { amount, source, dest, attempt } =>
                1 <= attempt <= MAX_TRADE_ATTEMPTS && amount >= 1
                && (exists|step: int| MIN_STEP_PERMILLE <= step <= MAX_STEP_PERMILLE
                    && amount == #[trigger] trade_amount(limit_of(limits, source), step))
                && trade_allowed(limits, source, dest, amount as int)
                && r.0 == traded(limits, source, dest, amount as int),
            TradeOutcome::Skipped => r.0 == limits,
        },
        all_trades_allowed(limits) ==> (r.1 matches TradeOutcome::Traded { attempt, .. } && attempt == 1),
{
    let mut rng = thread_rng();
    let mut parameters = [
        ResourceType::PeerConnection,
        ResourceType::DiskRead,
        ResourceType::DiskWrite,
        ResourceType::Reserve,
    ];
    let mut attempt: usize = 0;
    assert(parameters@ =~= all_kinds());
    while attempt < MAX_TRADE_ATTEMPTS
        invariant
            attempt <= MAX_TRADE_ATTEMPTS,
            parameters@.len() == 4,
            parameters@.to_multiset() == all_kinds().to_multiset(),
            attempt > 0 ==> !all_trades_allowed(limits),
        decreases MAX_TRADE_ATTEMPTS - attempt,
    {
        shuffle_resources(&mut parameters, &mut rng);
        let source = parameters[0];
        let dest = parameters[1];
        proof { lemma_first_two_differ(parameters@); }
        let step = random_in(&mut rng, MIN_STEP_PERMILLE, MAX_STEP_PERMILLE);
        let mut next = limits;
        match try_trade(&mut next, source, dest, step) {
            Some(amount) => {
                proof {
                    lemma_trade_keeps_total_and_floors(limits, source, dest, amount as int);
                    assert(amount == trade_amount(limit_of(limits, source), step as int));
                }
                return (next, TradeOutcome::Traded { amount, source, dest, attempt: attempt + 1 });
            },
            None => {
                assert(!trade_allowed(limits, source, dest, trade_amount(limit_of(limits, source), step as int)));
            },
        }
        attempt = attempt + 1;
    }
    (limits, TradeOutcome::Skipped)
}

/// An allowed trade keeps the sum of all permits, and leaves every class
/// either at or above its floor or no lower than it was.
pub proof fn lemma_trade_keeps_total_and_floors(l: CalculatedLimits, source: ResourceType, dest: ResourceType, amount: int)
    requires
        amount >= 1,
        trade_allowed(l, source, dest, amount),
    ensures
        total_permits(traded(l, source, dest, amount)) == total_permits(l),
        forall|k: ResourceType| #![auto] limit_of(traded(l, source, dest, amount), k) >= floor_of(k)
            || limit_of(traded(l, source, dest, amount), k) >= limit_of(l, k),
        above_floors(l) ==> above_floors(traded(l, source, dest, amount)),
{
}

/// File handles kept out of the permit budget for the process itself.
pub const FILE_HANDLE_MINIMUM: usize = 64;
/// Below this many file handles a warning is raised.
pub const RECOMMENDED_MINIMUM: usize = 1024;

/// `floor(x × num / den)`, but never below `min`.
pub open spec fn scaled_with_floor(x: int, num: int, den: int, min: int) -> int {
    let v = x * num / den;
    if v < min { min } else { v }
}

/// The budget derived from an effective file-handle limit: 85% of what is
/// left after `FILE_HANDLE_MINIMUM`, split 70% / 15% / 15% over peer
/// connections, disk reads and disk writes, with floors 10 / 4 / 4, and
/// no reserve.
pub open spec fn budget_for(effective: int) -> CalculatedLimits {
    let available = if effective > FILE_HANDLE_MINIMUM { effective - FILE_HANDLE_MINIMUM } else { 0 };
    CalculatedLimits {
        reserve_permits: 0,
        max_connected_peers: scaled_with_floor(available, 5950, 10000, 10) as usize,
        disk_read_permits: scaled_with_floor(available, 1275, 10000, 4) as usize,
        disk_write_permits: scaled_with_floor(available, 1275, 10000, 4) as usize,
    }
}

/// A file-handle limit below `RECOMMENDED_MINIMUM`, and where it came from.
#[derive(Clone, Copy, Debug, PartialEq, Eq, Structural)]
pub struct LimitWarning {
    pub limit: usize,
    pub from_override: bool,
}

fn scale_with_floor(x: usize, num: u128, min: usize) -> (r: usize)
    requires
        num <= 10000,
    ensures
        r == scaled_with_floor(x as int, num as int, 10000, min as int),
{
    assert(x as u128 * num <= usize::MAX as u128 * 10000) by (nonlinear_arith)
        requires num <= 10000;
    let v: u128 = x as u128 * num / 10000;
    assert(v <= x as u128) by (nonlinear_arith)
        requires v == x as u128 * num / 10000, num <= 10000;
    if v < min as u128 { min } else { v as usize }
}

/// The permit budget for an effective file-handle limit.
pub fn limits_for_budget(effective_limit: usize) -> (r: CalculatedLimits)
    ensures
        r == budget_for(effective_limit as int),
{
    let available = effective_limit.saturating_sub(FILE_HANDLE_MINIMUM);
    CalculatedLimits {
        reserve_permits: 0,
        max_connected_peers: scale_with_floor(available, 5950, 10),
        disk_read_permits: scale_with_floor(available, 1275, 4),
        disk_write_permits: scale_with_floor(available, 1275, 4),
    }
}

/// The effective file-handle limit: the smaller of the configured override
/// and the soft limit of the host, whichever of the two is known, else
/// `RECOMMENDED_MINIMUM`.
pub open spec fn effective_limit_of(override_limit: Option<usize>, soft: Option<u64>) -> int {
    match (override_limit, soft) {
        (Some(o), Some(s)) => if (s as int) < (o as int) { s as int } else { o as int },
        (Some(o), None) => o as int,
        (None, Some(s)) => if s as int > usize::MAX { usize::MAX as int } else { s as int },
        (None, None) => RECOMMENDED_MINIMUM as int,
    }
}

/// Picks the effective limit from the override and the host's soft limit,
/// with a warning when it lies below `RECOMMENDED_MINIMUM`.
pub fn effective_limit(override_limit: Option<usize>, soft: Option<u64>) -> (r: (usize, Option<LimitWarning>))
    ensures
        r.0 == effective_limit_of(override_limit, soft),
        match r.1 {
            Some(w) => w.limit == r.0 && r.0 < RECOMMENDED_MINIMUM
                && w.from_override == (override_limit is Some && r.0 == override_limit->0),
            None => r.0 >= RECOMMENDED_MINIMUM,
        },
{
    let effective: usize = match (override_limit, soft) {
        (Some(o), Some(s)) => if (s as u128) < (o as u128) { s as usize } else { o },
        (Some(o), None) => o,
        (None, Some(s)) => if s as u128 > usize::MAX as u128 { usize::MAX } else { s as usize },
        (None, None) => RECOMMENDED_MINIMUM,
    };
    if effective < RECOMMENDED_MINIMUM {
        let from_override = match override_limit {
            Some(o) => o == effective,
            None => false,
        };
        (effective, Some(LimitWarning { limit: effective, from_override }))
    } else {
        (effective, None)
    }
}

/// Relies on rlimit's Resource::get for NOFILE: the soft limit of open
/// files, when the host reports one.
#[verifier::external_body]
fn soft_nofile_limit() -> Option<u64> {
    rlimit::Resource::NOFILE.get().ok().map(|(soft, _)| soft)
}

/// The initial permit budget from the host's file-handle limit and an
/// optional configured override.
pub fn calculate_adaptive_limits(resource_limit_override: Option<usize>) -> (r: (CalculatedLimits, Option<LimitWarning>))
    ensures
        exists|soft: Option<u64>| {
            let e = #[trigger] effective_limit_of(resource_limit_override, soft);
            &&& r.0 == budget_for(e)
            &&& match r.1 {
                Some(w) => w.limit == e && e < RECOMMENDED_MINIMUM,
                None => e >= RECOMMENDED_MINIMUM,
            }
        },
{
    let soft = soft_nofile_limit();
    let (effective, warning) = effective_limit(resource_limit_override, soft);
    let limits = limits_for_budget(effective);
    assert(effective_limit_of(resource_limit_override, soft) == effective);
    (limits, warning)
}

} // verus!
