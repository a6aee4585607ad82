//! API-key pool selection.
//!
//! A selector is built from a pool by keeping only its enabled keys. It
//! yields the next key under one of three strategies: round-robin over a
//! counter, uniformly random, or weighted by the configured weights.

use vstd::prelude::*;

use rand::Rng;

use crate::config::{ApiKeyConfig, ApiKeyPool, ApiKeyStrategy};

verus! {

/// The keys of `keys` that are enabled, in order.
pub open spec fn spec_enabled_keys(keys: Seq<ApiKeyConfig>) -> Seq<ApiKeyConfig>
    decreases keys.len(),
{
    if keys.len() == 0 {
        Seq::empty()
    } else {
        let rest = spec_enabled_keys(keys.drop_last());
        if keys.last().enabled {
            rest.push(keys.last())
        } else {
            rest
        }
    }
}

/// The sum of the weights of the first `i` keys.
pub open spec fn spec_cum_weight(keys: Seq<ApiKeyConfig>, i: int) -> int
    decreases i,
{
    if i <= 0 {
        0
    } else {
        spec_cum_weight(keys, i - 1) + keys[i - 1].weight
    }
}

/// Relies on `rand::thread_rng` and `rand::Rng::gen_range`: returns a value
/// drawn uniformly from `[0, n)`; `gen_range` panics only on an empty
/// range, which the precondition excludes.
#[verifier::external_body]
fn random_below(n: u64) -> (r: u64)
    requires
        1 <= n,
    ensures
        r < n,
{
    rand::thread_rng().gen_range(0..n)
}

/// Selects keys from the enabled keys of one pool.
pub struct ApiKeySelector {
    /// The enabled keys of the pool, in declaration order.
    pub keys: Vec<ApiKeyConfig>,
    /// The pool's strategy.
    pub strategy: ApiKeyStrategy,
    /// Header that receives the key when `query_param_name` is unset.
    pub header_name: String,
    /// When set, the key is attached as this query parameter instead.
    pub query_param_name: Option<String>,
    /// Counter behind round-robin selection; each pick takes the counter
    /// modulo the number of keys and then increments it (wrapping).
    pub round_robin_index: u64,
    /// Sum of the weights of the retained keys, saturated at `u64::MAX`.
    pub total_weight: u64,
}

impl ApiKeySelector {
    /// Well-formedness: the selector holds enabled keys only, and
    /// `total_weight` is their weight sum (saturated).
    pub open spec fn wf(self) -> bool {
        &&& forall|i: int| 0 <= i < self.keys@.len() ==> (#[trigger] self.keys@[i]).enabled
        &&& if spec_cum_weight(self.keys@, self.keys@.len() as int) <= u64::MAX {
            self.total_weight == spec_cum_weight(self.keys@, self.keys@.len() as int)
        } else {
            self.total_weight == u64::MAX
        }
    }

    /// Everything but the round-robin counter is unchanged.
    pub open spec fn same_but_counter(self, other: ApiKeySelector) -> bool {
        &&& self.keys@ == other.keys@
        &&& self.strategy == other.strategy
        &&& self.header_name == other.header_name
        &&& self.query_param_name == other.query_param_name
        &&& self.total_weight == other.total_weight
    }

    /// Build a selector from a pool by retaining its enabled keys and
    /// precomputing their total weight. The counter starts at zero.
    pub fn new(pool: &ApiKeyPool) -> (r: Self)
        ensures
            r.keys@ == spec_enabled_keys(pool.keys@),
            r.strategy == pool.strategy,
            r.header_name@ == pool.header_name@,
            r.query_param_name == pool.query_param_name,
            r.round_robin_index == 0,
            r.wf(),
    {
        let mut keys: Vec<ApiKeyConfig> = Vec::new();
        let mut i: usize = 0;
        while i < pool.keys.len()
            invariant
                i <= pool.keys@.len(),
                keys@ =~= spec_enabled_keys(pool.keys@.subrange(0, i as int)),
                forall|k: int| 0 <= k < keys@.len() ==> (#[trigger] keys@[k]).enabled,
            decreases pool.keys@.len() - i,
        {
            proof {
                let pre1 = pool.keys@.subrange(0, i as int + 1);
                assert(pre1.drop_last() =~= pool.keys@.subrange(0, i as int));
                assert(pre1.last() == pool.keys@[i as int]);
            }
            if pool.keys[i].enabled {
                keys.push(pool.keys[i].clone());
                proof {
                    assert(keys@ =~= spec_enabled_keys(pool.keys@.subrange(0, i as int + 1)));
                }
            }
            i = i + 1;
        }
        proof {
            assert(pool.keys@.subrange(0, pool.keys@.len() as int) =~= pool.keys@);
        }
        let mut total: u64 = 0;
        let mut i: usize = 0;
        while i < keys.len()
            invariant
                i <= keys@.len(),
                if spec_cum_weight(keys@, i as int) <= u64::MAX {
                    total == spec_cum_weight(keys@, i as int)
                } else {
                    total == u64::MAX
                },
            decreases keys@.len() - i,
        {
            let w = keys[i].weight as u64;
            if w > u64::MAX - total {
                total = u64::MAX;
            } else {
                total = total + w;
            }
            proof {
                lemma_cum_weight_mono(keys@, i as int, i as int + 1);
            }
            i = i + 1;
        }
        ApiKeySelector {
            keys,
            strategy: pool.strategy,
            header_name: pool.header_name.clone(),
            query_param_name: match &pool.query_param_name {
                Some(q) => Some(q.clone()),
                None => None,
            },
            round_robin_index: 0,
            total_weight: total,
        }
    }

    /// Number of retained (enabled) keys.
    pub fn len(&self) -> (r: usize)
        ensures
            r == self.keys@.len(),
    {
        self.keys.len()
    }

    /// Whether the selector holds no key.
    pub fn is_empty(&self) -> (r: bool)
        ensures
            r == (self.keys@.len() == 0),
    {
        self.keys.len() == 0
    }

    /// The strategy, as its configuration keyword.
    pub fn strategy_name(&self) -> (r: &'static str)
        ensures
            self.strategy == ApiKeyStrategy::RoundRobin ==> r@ == "round_robin"@,
            self.strategy == ApiKeyStrategy::Random ==> r@ == "random"@,
            self.strategy == ApiKeyStrategy::Weight ==> r@ == "weight"@,
    {
        match self.strategy {
            ApiKeyStrategy::RoundRobin => "round_robin",
            ApiKeyStrategy::Random => "random",
            ApiKeyStrategy::Weight => "weight",
        }
    }

    /// Pick the index of the next key under the configured strategy.
    /// Returns `None` exactly when the selector is empty. Round-robin picks
    /// the counter modulo the key count and increments the counter
    /// (wrapping); the other strategies leave the counter unchanged and
    /// pick an index below the key count — for the weighted strategy, the
    /// index that `weighted_index_for` assigns to some draw below
    /// `total_weight` (or a random index when `total_weight` is zero).
    pub fn pick_index(&mut self) -> (r: Option<usize>)
        ensures
            old(self).same_but_counter(*final(self)),
            r is Some <==> old(self).keys@.len() > 0,
            r matches Some(i) ==> i < old(self).keys@.len(),
            old(self).strategy == ApiKeyStrategy::RoundRobin && old(self).keys@.len() > 0 ==> {
                &&& r matches Some(i) && i as int == old(self).round_robin_index as int % (old(
                    self,
                ).keys@.len() as int)
                &&& final(self).round_robin_index == if old(self).round_robin_index == u64::MAX {
                    0u64
                } else {
                    (old(self).round_robin_index + 1) as u64
                }
            },
            old(self).strategy != ApiKeyStrategy::RoundRobin ==> final(self).round_robin_index
                == old(self).round_robin_index,
            old(self).strategy == ApiKeyStrategy::Weight && old(self).keys@.len() > 0 && old(
                self,
            ).total_weight > 0 ==> (r matches Some(i) && exists|d: int|
                0 <= d < old(self).total_weight && i as int == spec_weighted_index_at(
                    old(self).keys@,
                    d,
                )),
    {
        if self.keys.len() == 0 {
            return None;
        }
        match self.strategy {
            ApiKeyStrategy::RoundRobin => {
                let len = self.keys.len() as u64;
                let idx = (self.round_robin_index % len) as usize;
                if self.round_robin_index == u64::MAX {
                    self.round_robin_index = 0;
                } else {
                    self.round_robin_index = self.round_robin_index + 1;
                }
                Some(idx)
            },
            ApiKeyStrategy::Random => {
                let idx = random_below(self.keys.len() as u64) as usize;
                Some(idx)
            },
            ApiKeyStrategy::Weight => {
                if self.total_weight == 0 {
                    let idx = random_below(self.keys.len() as u64) as usize;
                    Some(idx)
                } else {
                    let draw = random_below(self.total_weight);
                    Some(weighted_index_for(&self.keys, draw))
                }
            },
        }
    }

    /// Pick the next key value. `None` exactly when the selector is empty;
    /// otherwise the value of the key that `pick_index` chose.
    pub fn get_key(&mut self) -> (r: Option<String>)
        ensures
            old(self).same_but_counter(*final(self)),
            r is Some <==> old(self).keys@.len() > 0,
            r matches Some(k) ==> exists|i: int|
                0 <= i < old(self).keys@.len() && k@ == (#[trigger] old(self).keys@[i]).key@,
            old(self).strategy == ApiKeyStrategy::RoundRobin && old(self).keys@.len() > 0 ==> {
                &&& r matches Some(k) && k@ == old(self).keys@[old(self).round_robin_index as int
                    % (old(self).keys@.len() as int)].key@
                &&& final(self).round_robin_index == if old(self).round_robin_index == u64::MAX {
                    0u64
                } else {
                    (old(self).round_robin_index + 1) as u64
                }
            },
            old(self).strategy != ApiKeyStrategy::RoundRobin ==> final(self).round_robin_index
                == old(self).round_robin_index,
    {
        match self.pick_index() {
            Some(i) => Some(self.keys[i].key.clone()),
            None => None,
        }
    }
}

/// The index that the weighted strategy assigns to `draw`: the first index
/// whose cumulative weight range contains `draw`, or the last index when
/// `draw` lies beyond the total weight.
pub open spec fn spec_weighted_index_at(keys: Seq<ApiKeyConfig>, draw: int) -> int {
    if exists|i: int|
        0 <= i < keys.len() && #[trigger] spec_cum_weight(keys, i) <= draw < spec_cum_weight(
            keys,
            i + 1,
        ) {
        choose|i: int|
            0 <= i < keys.len() && #[trigger] spec_cum_weight(keys, i) <= draw < spec_cum_weight(
                keys,
                i + 1,
            )
    } else {
        keys.len() - 1
    }
}

/// Cumulative weights grow with the index.
pub proof fn lemma_cum_weight_mono(keys: Seq<ApiKeyConfig>, i: int, j: int)
    requires
        i <= j,
    ensures
        spec_cum_weight(keys, i) <= spec_cum_weight(keys, j),
    decreases j - i,
{
    if i < j {
        lemma_cum_weight_mono(keys, i, j - 1);
    }
}

/// The index whose cumulative weight range contains `draw` is unique.
pub proof fn lemma_weighted_index_unique(keys: Seq<ApiKeyConfig>, draw: int, i: int, j: int)
    requires
        0 <= i < keys.len(),
        0 <= j < keys.len(),
        spec_cum_weight(keys, i) <= draw < spec_cum_weight(keys, i + 1),
        spec_cum_weight(keys, j) <= draw < spec_cum_weight(keys, j + 1),
    ensures
        i == j,
{
    if i < j {
        lemma_cum_weight_mono(keys, i + 1, j);
    } else if j < i {
        lemma_cum_weight_mono(keys, j + 1, i);
    }
}

/// Walk the keys in declaration order, accumulating weights, and return
/// the first index whose cumulative weight exceeds `draw`; the last index
/// when no cumulative weight does.
pub fn weighted_index_for(keys: &Vec<ApiKeyConfig>, draw: u64) -> (r: usize)
    requires
        keys@.len() > 0,
    ensures
        r < keys@.len(),
        r as int == spec_weighted_index_at(keys@, draw as int),
        draw < spec_cum_weight(keys@, keys@.len() as int) ==> spec_cum_weight(keys@, r as int)
            <= draw < spec_cum_weight(keys@, r as int + 1),
        draw >= spec_cum_weight(keys@, keys@.len() as int) ==> r as int == keys@.len() - 1,
{
    let n = keys.len();
    let mut cum: u64 = 0;
    let mut i: usize = 0;
    while i < n
        invariant
            n == keys@.len(),
            i <= n,
            cum == spec_cum_weight(keys@, i as int),
            spec_cum_weight(keys@, i as int) <= draw,
        decreases n - i,
    {
        let w = keys[i].weight as u64;
        if w > u64::MAX - cum {
            // The next cumulative weight exceeds `u64::MAX`, so it exceeds
            // every possible draw.
            proof {
                witness_weighted_index(keys@, draw as int, i as int);
                lemma_cum_weight_mono(keys@, i as int + 1, keys@.len() as int);
            }
            return i;
        }
        cum = cum + w;
        if draw < cum {
            proof {
                witness_weighted_index(keys@, draw as int, i as int);
                lemma_cum_weight_mono(keys@, i as int + 1, keys@.len() as int);
            }
            return i;
        }
        i = i + 1;
    }
    proof {
        assert(draw >= spec_cum_weight(keys@, keys@.len() as int));
        assert forall|k: int|
            0 <= k < keys@.len() implies !(#[trigger] spec_cum_weight(keys@, k) <= draw as int
            && (draw as int) < spec_cum_weight(keys@, k + 1)) by {
            lemma_cum_weight_mono(keys@, k + 1, keys@.len() as int);
        }
    }
    n - 1
}

/// `i` is the index that `spec_weighted_index_at` picks for `draw`.
proof fn witness_weighted_index(keys: Seq<ApiKeyConfig>, draw: int, i: int)
    requires
        0 <= i < keys.len(),
        spec_cum_weight(keys, i) <= draw < spec_cum_weight(keys, i + 1),
    ensures
        spec_weighted_index_at(keys, draw) == i,
{
    let c = choose|k: int|
        0 <= k < keys.len() && #[trigger] spec_cum_weight(keys, k) <= draw < spec_cum_weight(
            keys,
            k + 1,
        );
    lemma_weighted_index_unique(keys, draw, c, i);
}

// --- laws -----------------------------------------------------------------

/// The retained keys of a pool are enabled, and each is a key of the pool.
pub proof fn lemma_enabled_keys_enabled(keys: Seq<ApiKeyConfig>)
    ensures
        forall|i: int|
            0 <= i < spec_enabled_keys(keys).len() ==> (#[trigger] spec_enabled_keys(
                keys,
            )[i]).enabled && keys.contains(spec_enabled_keys(keys)[i]),
    decreases keys.len(),
{
    if keys.len() > 0 {
        lemma_enabled_keys_enabled(keys.drop_last());
        let rest = spec_enabled_keys(keys.drop_last());
        assert forall|i: int|
            0 <= i < spec_enabled_keys(keys).len() implies (#[trigger] spec_enabled_keys(
            keys,
        )[i]).enabled && keys.contains(spec_enabled_keys(keys)[i]) by {
            if i < rest.len() {
                assert(spec_enabled_keys(keys)[i] == rest[i]);
                let j = choose|j: int|
                    0 <= j < keys.drop_last().len() && keys.drop_last()[j] == rest[i];
                assert(keys[j] == rest[i]);
            } else {
                assert(spec_enabled_keys(keys)[i] == keys.last());
                assert(keys[keys.len() - 1] == keys.last());
            }
        }
    }
}

/// For any pool, a key yielded by a selector built from it is the value
/// of one of the pool's enabled keys: disabled keys are never picked.
pub proof fn lemma_pick_only_enabled(pool: ApiKeyPool, sel: ApiKeySelector, k: Seq<char>)
    requires
        sel.keys@ == spec_enabled_keys(pool.keys@),
        exists|i: int| 0 <= i < sel.keys@.len() && k == (#[trigger] sel.keys@[i]).key@,
    ensures
        exists|j: int|
            0 <= j < pool.keys@.len() && (#[trigger] pool.keys@[j]).enabled && pool.keys@[j].key@
                == k,
{
    lemma_enabled_keys_enabled(pool.keys@);
    let i = choose|i: int| 0 <= i < sel.keys@.len() && k == (#[trigger] sel.keys@[i]).key@;
    assert(pool.keys@.contains(sel.keys@[i]));
    let j = choose|j: int| 0 <= j < pool.keys@.len() && pool.keys@[j] == sel.keys@[i];
    assert(pool.keys@[j].enabled && pool.keys@[j].key@ == k);
}

/// Under the weighted strategy, the draws that select key `i` are exactly
/// the interval from its cumulative weight to the next, so each key's
/// share of the draw space equals its weight over the total weight.
pub proof fn lemma_weighted_share(keys: Seq<ApiKeyConfig>, i: int)
    requires
        keys.len() > 0,
        0 <= i < keys.len(),
    ensures
        Set::new(
            |d: int|
                0 <= d < spec_cum_weight(keys, keys.len() as int) && spec_weighted_index_at(
                    keys,
                    d,
                ) == i,
        ) =~= vstd::set_lib::set_int_range(spec_cum_weight(keys, i), spec_cum_weight(keys, i + 1)),
        Set::new(
            |d: int|
                0 <= d < spec_cum_weight(keys, keys.len() as int) && spec_weighted_index_at(
                    keys,
                    d,
                ) == i,
        ).len() == keys[i].weight,
{
    let total = spec_cum_weight(keys, keys.len() as int);
    let lo = spec_cum_weight(keys, i);
    let hi = spec_cum_weight(keys, i + 1);
    let chosen_set = Set::new(
        |d: int| 0 <= d < total && spec_weighted_index_at(keys, d) == i,
    );
    assert forall|d: int| chosen_set.contains(d) implies lo <= d < hi by {
        lemma_cum_locate(keys, d, keys.len() as int);
        let kk = choose|kk: int|
            0 <= kk < keys.len() && #[trigger] spec_cum_weight(keys, kk) <= d < spec_cum_weight(
                keys,
                kk + 1,
            );
        witness_weighted_index(keys, d, kk);
    }
    assert forall|d: int| lo <= d < hi implies chosen_set.contains(d) by {
        lemma_cum_weight_mono(keys, 0, i);
        lemma_cum_weight_mono(keys, i + 1, keys.len() as int);
        witness_weighted_index(keys, d, i);
    }
    assert(chosen_set =~= vstd::set_lib::set_int_range(lo, hi));
    vstd::set_lib::lemma_int_range(lo, hi);
}

/// Every draw below the total weight lies in some key's cumulative range.
proof fn lemma_cum_locate(keys: Seq<ApiKeyConfig>, d: int, hi: int)
    requires
        0 < hi <= keys.len(),
        0 <= d < spec_cum_weight(keys, hi),
    ensures
        exists|k: int|
            0 <= k < hi && #[trigger] spec_cum_weight(keys, k) <= d < spec_cum_weight(keys, k + 1),
    decreases hi,
{
    if d >= spec_cum_weight(keys, hi - 1) {
        assert(spec_cum_weight(keys, hi - 1) <= d < spec_cum_weight(keys, hi));
    } else {
        lemma_cum_locate(keys, d, hi - 1);
    }
}

/// How often `x` occurs in `s`.
pub open spec fn count_eq(s: Seq<int>, x: int) -> int
    decreases s.len(),
{
    if s.len() == 0 {
        0
    } else {
        count_eq(s.drop_last(), x) + if s.last() == x {
            1int
        } else {
            0int
        }
    }
}

proof fn lemma_count_concat(a: Seq<int>, b: Seq<int>, x: int)
    ensures
        count_eq(a + b, x) == count_eq(a, x) + count_eq(b, x),
    decreases b.len(),
{
    if b.len() == 0 {
        assert(a + b =~= a);
    } else {
        lemma_count_concat(a, b.drop_last(), x);
        assert((a + b).drop_last() =~= a + b.drop_last());
        assert((a + b).last() == b.last());
    }
}

proof fn lemma_count_unique(s: Seq<int>, x: int, t0: int)
    requires
        0 <= t0 < s.len(),
        forall|t: int| 0 <= t < s.len() ==> (s[t] == x <==> t == t0),
    ensures
        count_eq(s, x) == 1,
    decreases s.len(),
{
    if t0 == s.len() - 1 {
        lemma_count_none(s.drop_last(), x);
    } else {
        lemma_count_unique(s.drop_last(), x, t0);
    }
}

proof fn lemma_count_none(s: Seq<int>, x: int)
    requires
        forall|t: int| 0 <= t < s.len() ==> s[t] != x,
    ensures
        count_eq(s, x) == 0,
    decreases s.len(),
{
    if s.len() > 0 {
        lemma_count_none(s.drop_last(), x);
    }
}

/// Any block of `n` consecutive counter values hits every index below `n`
/// exactly once.
proof fn lemma_round_robin_block(c: int, n: int, j: int)
    requires
        n >= 1,
        0 <= j < n,
        c >= 0,
    ensures
        count_eq(Seq::new(n as nat, |t: int| (c + t) % n), j) == 1,
{
    let block = Seq::new(n as nat, |t: int| (c + t) % n);
    let r = c % n;
    let t0 = if j >= r {
        j - r
    } else {
        j - r + n
    };
    vstd::arithmetic::div_mod::lemma_fundamental_div_mod(c, n);
    vstd::arithmetic::div_mod::lemma_mod_bound(c, n);
    assert(0 <= t0 < n);
    assert(block[t0] == j) by {
        assert(c + t0 == n * (c / n) + (r + t0));
        if j >= r {
            vstd::arithmetic::div_mod::lemma_mod_multiples_vanish(c / n, j, n);
            vstd::arithmetic::div_mod::lemma_small_mod(j as nat, n as nat);
        } else {
            vstd::arithmetic::div_mod::lemma_mod_multiples_vanish(c / n + 1, j, n);
            assert(n * (c / n) + (r + t0) == n * (c / n + 1) + j) by (nonlinear_arith)
                requires r + t0 == n + j;
            vstd::arithmetic::div_mod::lemma_small_mod(j as nat, n as nat);
        }
    }
    assert forall|t: int| 0 <= t < n && t != t0 implies block[t] != j by {
        if block[t] == j {
            vstd::arithmetic::div_mod::lemma_fundamental_div_mod(c + t, n);
            vstd::arithmetic::div_mod::lemma_fundamental_div_mod(c + t0, n);
            let q1 = (c + t) / n;
            let q2 = (c + t0) / n;
            assert(c + t == n * q1 + j);
            assert(c + t0 == n * q2 + j);
            assert(t - t0 == n * q1 - n * q2);
            assert(n * q1 - n * q2 == n * (q1 - q2)) by (nonlinear_arith);
            assert(q1 != q2 ==> (n * (q1 - q2) >= n || n * (q1 - q2) <= -n)) by (nonlinear_arith);
            assert(q1 == q2 ==> n * (q1 - q2) == 0) by (nonlinear_arith);
            assert(false);
        }
    }
    lemma_count_unique(block, j, t0);
}

/// Round-robin is fair: starting at any counter value, a window of
/// `m * n` consecutive picks over `n` keys takes every key index exactly
/// `m` times (each pick takes the counter modulo `n` and increments the
/// counter; the law describes the picks while the counter does not wrap
/// around).
pub proof fn lemma_round_robin_even(c0: int, n: int, m: int, j: int)
    requires
        n >= 1,
        m >= 0,
        0 <= j < n,
        c0 >= 0,
    ensures
        count_eq(Seq::new((m * n) as nat, |t: int| (c0 + t) % n), j) == m,
    decreases m,
{
    if m == 0 {
        assert(m * n == 0) by (nonlinear_arith)
            requires m == 0;
        assert(Seq::new((m * n) as nat, |t: int| (c0 + t) % n).len() == 0);
        lemma_count_none(Seq::new((m * n) as nat, |t: int| (c0 + t) % n), j);
    } else {
        lemma_round_robin_even(c0, n, m - 1, j);
        assert(m * n == (m - 1) * n + n) by (nonlinear_arith);
        assert((m - 1) * n >= 0) by (nonlinear_arith)
            requires m >= 1 && n >= 1;
        let whole = Seq::new((m * n) as nat, |t: int| (c0 + t) % n);
        let prefix = Seq::new(((m - 1) * n) as nat, |t: int| (c0 + t) % n);
        let block = Seq::new(n as nat, |t: int| (c0 + (m - 1) * n + t) % n);
        assert(whole =~= prefix + block);
        lemma_count_concat(prefix, block, j);
        lemma_round_robin_block(c0 + (m - 1) * n, n, j);
    }
}

/// Build a selector for a pool (see `ApiKeySelector::new`).
pub fn create_selector(pool: &ApiKeyPool) -> (r: ApiKeySelector)
    ensures
        r.keys@ == spec_enabled_keys(pool.keys@),
        r.strategy == pool.strategy,
        r.header_name@ == pool.header_name@,
        r.query_param_name == pool.query_param_name,
        r.round_robin_index == 0,
        r.wf(),
{
    ApiKeySelector::new(pool)
}

} // verus!
