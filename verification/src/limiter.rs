//! Per-(target, task type) rate budgets over fixed windows.
//!
//! A [`RateLimiter`] owns one [`RateBucket`] per (target, task type) pair
//! that has ever been admitted.  A bucket counts admissions inside its
//! current window and gives the unit back on completion; when the window
//! has elapsed the count lazily resets to zero.  Unknown targets are
//! served with the per-target configuration, or with the global default
//! where none was configured; the empty target name is an ordinary key
//! and so acts as the reserved "unspecified" bucket.

use vstd::prelude::*;

verus! {

/// Mathematical model of one rate bucket.
#[verifier::ext_equal]
pub ghost struct BucketModel {
    pub target_id: Seq<char>,
    pub task_type: Seq<char>,
    pub capacity: u32,
    pub window_seconds: u64,
    pub current_count: u32,
    pub window_start: u64,
}

impl BucketModel {
    /// A bucket never counts past its capacity.
    pub open spec fn wf(self) -> bool {
        self.current_count <= self.capacity
    }

    pub open spec fn matches_key(self, target_id: Seq<char>, task_type: Seq<char>) -> bool {
        self.target_id == target_id && self.task_type == task_type
    }

    /// The window that began at `window_start` has run out at `now`.
    pub open spec fn window_elapsed(self, now: u64) -> bool {
        now >= self.window_start + self.window_seconds
    }

    /// The count that admission decisions see at `now`: the stored count,
    /// or zero once the window has elapsed.
    pub open spec fn effective_count(self, now: u64) -> u32 {
        if self.window_elapsed(now) {
            0
        } else {
            self.current_count
        }
    }

    /// The bucket after one admission at `now`: a fresh window starts
    /// when the old one has elapsed, and the count rises by one.
    pub open spec fn admitted(self, now: u64) -> BucketModel {
        if self.window_elapsed(now) {
            BucketModel { current_count: 1u32, window_start: now, ..self }
        } else {
            BucketModel { current_count: (self.current_count + 1) as u32, ..self }
        }
    }

    /// The bucket after one completion: the count falls by one, clamped
    /// at zero.
    pub open spec fn completed(self) -> BucketModel {
        if self.current_count > 0 {
            BucketModel { current_count: (self.current_count - 1) as u32, ..self }
        } else {
            self
        }
    }
}

/// Mathematical model of one per-target configuration entry.
#[verifier::ext_equal]
pub ghost struct ConfigModel {
    pub target_id: Seq<char>,
    pub capacity: u32,
    pub window_seconds: u64,
}

/// Mathematical model of a whole limiter.
#[verifier::ext_equal]
pub ghost struct LimiterModel {
    pub buckets: Seq<BucketModel>,
    pub configs: Seq<ConfigModel>,
    pub default_capacity: u32,
    pub default_window_seconds: u64,
}

impl LimiterModel {
    pub open spec fn has_bucket(self, target_id: Seq<char>, task_type: Seq<char>) -> bool {
        exists|i: int|
            0 <= i < self.buckets.len() && self.buckets[i].matches_key(target_id, task_type)
    }

    pub open spec fn bucket_index(self, target_id: Seq<char>, task_type: Seq<char>) -> int {
        choose|i: int|
            0 <= i < self.buckets.len() && self.buckets[i].matches_key(target_id, task_type)
    }

    pub open spec fn bucket_for(self, target_id: Seq<char>, task_type: Seq<char>) -> BucketModel {
        self.buckets[self.bucket_index(target_id, task_type)]
    }

    pub open spec fn has_config(self, target_id: Seq<char>) -> bool {
        exists|i: int| 0 <= i < self.configs.len() && self.configs[i].target_id == target_id
    }

    pub open spec fn config_index(self, target_id: Seq<char>) -> int {
        choose|i: int| 0 <= i < self.configs.len() && self.configs[i].target_id == target_id
    }

    /// The capacity a fresh bucket for `target_id` receives.
    pub open spec fn capacity_for(self, target_id: Seq<char>) -> u32 {
        if self.has_config(target_id) {
            self.configs[self.config_index(target_id)].capacity
        } else {
            self.default_capacity
        }
    }

    /// The window length a fresh bucket for `target_id` receives.
    pub open spec fn window_for(self, target_id: Seq<char>) -> u64 {
        if self.has_config(target_id) {
            self.configs[self.config_index(target_id)].window_seconds
        } else {
            self.default_window_seconds
        }
    }

    /// The stored count for a key; zero where no bucket exists.
    pub open spec fn count_for(self, target_id: Seq<char>, task_type: Seq<char>) -> u32 {
        if self.has_bucket(target_id, task_type) {
            self.bucket_for(target_id, task_type).current_count
        } else {
            0
        }
    }

    /// Admission decision at `now`: true iff the key's effective count is
    /// under its capacity.  A key without a bucket behaves as an empty
    /// bucket under its configured (or default) capacity.
    pub open spec fn can_schedule(
        self,
        target_id: Seq<char>,
        task_type: Seq<char>,
        now: u64,
    ) -> bool {
        if self.has_bucket(target_id, task_type) {
            let b = self.bucket_for(target_id, task_type);
            b.effective_count(now) < b.capacity
        } else {
            self.capacity_for(target_id) > 0
        }
    }

    /// The limiter after a checked admission at `now`.  Identity when the
    /// admission is denied.
    pub open spec fn after_admit(
        self,
        target_id: Seq<char>,
        task_type: Seq<char>,
        now: u64,
    ) -> LimiterModel {
        if !self.can_schedule(target_id, task_type, now) {
            self
        } else if self.has_bucket(target_id, task_type) {
            LimiterModel {
                buckets: self.buckets.update(
                    self.bucket_index(target_id, task_type),
                    self.bucket_for(target_id, task_type).admitted(now),
                ),
                ..self
            }
        } else {
            LimiterModel {
                buckets: self.buckets.push(
                    BucketModel {
                        target_id,
                        task_type,
                        capacity: self.capacity_for(target_id),
                        window_seconds: self.window_for(target_id),
                        current_count: 1u32,
                        window_start: now,
                    },
                ),
                ..self
            }
        }
    }

    /// A completion for this key would find no unit to give back.
    pub open spec fn completion_clamped(self, target_id: Seq<char>, task_type: Seq<char>) -> bool {
        !self.has_bucket(target_id, task_type) || self.bucket_for(
            target_id,
            task_type,
        ).current_count == 0
    }

    /// The limiter after one completion for this key.  Identity when the
    /// completion is clamped.
    pub open spec fn after_completion(
        self,
        target_id: Seq<char>,
        task_type: Seq<char>,
    ) -> LimiterModel {
        if self.has_bucket(target_id, task_type) && self.bucket_for(
            target_id,
            task_type,
        ).current_count > 0 {
            LimiterModel {
                buckets: self.buckets.update(
                    self.bucket_index(target_id, task_type),
                    self.bucket_for(target_id, task_type).completed(),
                ),
                ..self
            }
        } else {
            self
        }
    }

    /// The limiter after `configure_target`: the entry for `target_id` is
    /// replaced, or appended where none existed.
    pub open spec fn with_config(
        self,
        target_id: Seq<char>,
        capacity: u32,
        window_seconds: u64,
    ) -> LimiterModel {
        if self.has_config(target_id) {
            LimiterModel {
                configs: self.configs.update(
                    self.config_index(target_id),
                    ConfigModel { target_id, capacity, window_seconds },
                ),
                ..self
            }
        } else {
            LimiterModel {
                configs: self.configs.push(ConfigModel { target_id, capacity, window_seconds }),
                ..self
            }
        }
    }

    pub open spec fn keys_unique(self) -> bool {
        forall|i: int, j: int|
            #![trigger self.buckets[i], self.buckets[j]]
            0 <= i < j < self.buckets.len() ==> !self.buckets[i].matches_key(
                self.buckets[j].target_id,
                self.buckets[j].task_type,
            )
    }

    pub open spec fn configs_unique(self) -> bool {
        forall|i: int, j: int|
            #![trigger self.configs[i], self.configs[j]]
            0 <= i < j < self.configs.len() ==> self.configs[i].target_id
                != self.configs[j].target_id
    }

    /// The limiter's invariant: one bucket per key, one configuration
    /// entry per target, and no count past its capacity.
    pub open spec fn wf(self) -> bool {
        &&& self.keys_unique()
        &&& self.configs_unique()
        &&& forall|i: int| 0 <= i < self.buckets.len() ==> (#[trigger] self.buckets[i]).wf()
    }
}

/// One rate bucket: the admission budget of a (target, task type) pair
/// inside its current window.
pub struct RateBucket {
    pub target_id: String,
    pub task_type: String,
    pub capacity: u32,
    pub window_seconds: u64,
    pub current_count: u32,
    pub window_start: u64,
}

impl View for RateBucket {
    type V = BucketModel;

    open spec fn view(&self) -> BucketModel {
        BucketModel {
            target_id: self.target_id@,
            task_type: self.task_type@,
            capacity: self.capacity,
            window_seconds: self.window_seconds,
            current_count: self.current_count,
            window_start: self.window_start,
        }
    }
}

/// One per-target configuration entry: capacity and window length for
/// buckets of this target.
pub struct TargetConfig {
    pub target_id: String,
    pub capacity: u32,
    pub window_seconds: u64,
}

impl View for TargetConfig {
    type V = ConfigModel;

    open spec fn view(&self) -> ConfigModel {
        ConfigModel {
            target_id: self.target_id@,
            capacity: self.capacity,
            window_seconds: self.window_seconds,
        }
    }
}

/// Per-(target, task type) request budgets over fixed windows.
pub struct RateLimiter {
    buckets: Vec<RateBucket>,
    configs: Vec<TargetConfig>,
    default_capacity: u32,
    default_window_seconds: u64,
}

impl View for RateLimiter {
    type V = LimiterModel;

    closed spec fn view(&self) -> LimiterModel {
        LimiterModel {
            buckets: self.buckets@.map_values(|b: RateBucket| b@),
            configs: self.configs@.map_values(|c: TargetConfig| c@),
            default_capacity: self.default_capacity,
            default_window_seconds: self.default_window_seconds,
        }
    }
}

/// A key that occurs in a limiter with unique keys occurs at exactly one
/// index, and `bucket_index` names that index.
pub proof fn lemma_bucket_index_is(m: LimiterModel, target_id: Seq<char>, task_type: Seq<char>, i: int)
    requires
        m.keys_unique(),
        0 <= i < m.buckets.len(),
        m.buckets[i].matches_key(target_id, task_type),
    ensures
        m.has_bucket(target_id, task_type),
        m.bucket_index(target_id, task_type) == i,
{
    assert(m.has_bucket(target_id, task_type));
    let k = m.bucket_index(target_id, task_type);
    assert(0 <= k < m.buckets.len() && m.buckets[k].matches_key(target_id, task_type));
    if k != i {
        assert(m.buckets[i].target_id == m.buckets[k].target_id);
        assert(m.buckets[i].task_type == m.buckets[k].task_type);
        assert(false);
    }
}

/// A target that occurs in a limiter with unique configuration entries
/// occurs at exactly one index, and `config_index` names that index.
pub proof fn lemma_config_index_is(m: LimiterModel, target_id: Seq<char>, i: int)
    requires
        m.configs_unique(),
        0 <= i < m.configs.len(),
        m.configs[i].target_id == target_id,
    ensures
        m.has_config(target_id),
        m.config_index(target_id) == i,
{
    assert(m.has_config(target_id));
    let k = m.config_index(target_id);
    assert(0 <= k < m.configs.len() && m.configs[k].target_id == target_id);
    if k != i {
        assert(false);
    }
}

/// A checked admission preserves the limiter's invariant.
pub proof fn lemma_admit_preserves_wf(
    m: LimiterModel,
    target_id: Seq<char>,
    task_type: Seq<char>,
    now: u64,
)
    requires
        m.wf(),
    ensures
        m.after_admit(target_id, task_type, now).wf(),
{
    let m2 = m.after_admit(target_id, task_type, now);
    if m.can_schedule(target_id, task_type, now) {
        if m.has_bucket(target_id, task_type) {
            let k = m.bucket_index(target_id, task_type);
            assert(0 <= k < m.buckets.len() && m.buckets[k].matches_key(target_id, task_type));
            let b2 = m.buckets[k].admitted(now);
            assert(b2.target_id == m.buckets[k].target_id);
            assert(b2.wf());
            assert forall|i: int| 0 <= i < m2.buckets.len() implies (#[trigger] m2.buckets[i]).wf() by {
                if i != k {
                    assert(m2.buckets[i] == m.buckets[i]);
                }
            }
            assert(m2.keys_unique());
        } else {
            let nb = BucketModel {
                target_id,
                task_type,
                capacity: m.capacity_for(target_id),
                window_seconds: m.window_for(target_id),
                current_count: 1u32,
                window_start: now,
            };
            assert(nb.wf());
            assert forall|i: int, j: int|
                #![trigger m2.buckets[i], m2.buckets[j]]
                0 <= i < j < m2.buckets.len() implies !m2.buckets[i].matches_key(
                m2.buckets[j].target_id,
                m2.buckets[j].task_type,
            ) by {
                if j == m.buckets.len() {
                    assert(m2.buckets[i] == m.buckets[i]);
                    assert(m2.buckets[j] == nb);
                } else {
                    assert(m2.buckets[i] == m.buckets[i]);
                    assert(m2.buckets[j] == m.buckets[j]);
                }
            }
            assert forall|i: int| 0 <= i < m2.buckets.len() implies (#[trigger] m2.buckets[i]).wf() by {
                if i < m.buckets.len() {
                    assert(m2.buckets[i] == m.buckets[i]);
                }
            }
        }
    }
}

/// A completion preserves the limiter's invariant.
pub proof fn lemma_completion_preserves_wf(
    m: LimiterModel,
    target_id: Seq<char>,
    task_type: Seq<char>,
)
    requires
        m.wf(),
    ensures
        m.after_completion(target_id, task_type).wf(),
{
    let m2 = m.after_completion(target_id, task_type);
    if m.has_bucket(target_id, task_type) && m.bucket_for(target_id, task_type).current_count > 0 {
        let k = m.bucket_index(target_id, task_type);
        assert(0 <= k < m.buckets.len() && m.buckets[k].matches_key(target_id, task_type));
        assert forall|i: int| 0 <= i < m2.buckets.len() implies (#[trigger] m2.buckets[i]).wf() by {
            if i != k {
                assert(m2.buckets[i] == m.buckets[i]);
            }
        }
        assert(m2.keys_unique());
    }
}

/// The rate limit is respected (the heart of the admission guarantee):
/// in a well-formed limiter no key's count stands above its capacity,
/// and a key whose effective count has reached its capacity is denied.
pub proof fn lemma_rate_limit_respected(
    m: LimiterModel,
    target_id: Seq<char>,
    task_type: Seq<char>,
    now: u64,
)
    requires
        m.wf(),
    ensures
        m.count_for(target_id, task_type) <= if m.has_bucket(target_id, task_type) {
            m.bucket_for(target_id, task_type).capacity as int
        } else {
            0
        },
        m.has_bucket(target_id, task_type) && m.bucket_for(target_id, task_type).effective_count(
            now,
        ) >= m.bucket_for(target_id, task_type).capacity ==> !m.can_schedule(
            target_id,
            task_type,
            now,
        ),
{
    if m.has_bucket(target_id, task_type) {
        let k = m.bucket_index(target_id, task_type);
        assert(0 <= k < m.buckets.len() && m.buckets[k].matches_key(target_id, task_type));
        assert(m.buckets[k].wf());
    }
}

/// Admitting a task and then recording its completion restores exactly
/// one unit: the key's count returns to the effective count that stood
/// before the admission.  A completion never drives a count below zero:
/// it takes the count down by exactly one where a unit is held, and
/// leaves the count at zero (clamped) where none is.
pub proof fn lemma_completion_restores_unit(
    m: LimiterModel,
    target_id: Seq<char>,
    task_type: Seq<char>,
    now: u64,
)
    requires
        m.wf(),
    ensures
        m.can_schedule(target_id, task_type, now) ==> {
            let admitted = m.after_admit(target_id, task_type, now);
            let restored = admitted.after_completion(target_id, task_type);
            &&& admitted.count_for(target_id, task_type) == restored.count_for(
                target_id,
                task_type,
            ) + 1
            &&& restored.count_for(target_id, task_type) == if m.has_bucket(
                target_id,
                task_type,
            ) {
                m.bucket_for(target_id, task_type).effective_count(now) as int
            } else {
                0
            }
        },
        m.after_completion(target_id, task_type).count_for(target_id, task_type)
            == if m.count_for(target_id, task_type) > 0 {
            m.count_for(target_id, task_type) - 1
        } else {
            0
        },
{
    if m.can_schedule(target_id, task_type, now) {
        let admitted = m.after_admit(target_id, task_type, now);
        lemma_admit_preserves_wf(m, target_id, task_type, now);
        if m.has_bucket(target_id, task_type) {
            let k = m.bucket_index(target_id, task_type);
            assert(0 <= k < m.buckets.len() && m.buckets[k].matches_key(target_id, task_type));
            let b2 = m.buckets[k].admitted(now);
            lemma_bucket_index_is(admitted, target_id, task_type, k);
            assert(admitted.bucket_for(target_id, task_type) == b2);
            assert(b2.current_count > 0);
            let restored = admitted.after_completion(target_id, task_type);
            lemma_bucket_index_is(restored, target_id, task_type, k);
            assert(restored.bucket_for(target_id, task_type) == b2.completed());
        } else {
            let n = m.buckets.len() as int;
            lemma_bucket_index_is(admitted, target_id, task_type, n);
            let restored = admitted.after_completion(target_id, task_type);
            lemma_bucket_index_is(restored, target_id, task_type, n);
        }
    }
    let done = m.after_completion(target_id, task_type);
    if m.has_bucket(target_id, task_type) {
        let k = m.bucket_index(target_id, task_type);
        assert(0 <= k < m.buckets.len() && m.buckets[k].matches_key(target_id, task_type));
        if m.buckets[k].current_count > 0 {
            lemma_bucket_index_is(done, target_id, task_type, k);
        }
    }
}

impl RateLimiter {
    /// A fresh limiter: no buckets, no per-target entries, the given
    /// global defaults.
    pub fn new(default_capacity: u32, default_window_seconds: u64) -> (r: RateLimiter)
        ensures
            r@.wf(),
            r@.buckets.len() == 0,
            r@.configs.len() == 0,
            r@.default_capacity == default_capacity,
            r@.default_window_seconds == default_window_seconds,
    {
        RateLimiter {
            buckets: Vec::new(),
            configs: Vec::new(),
            default_capacity,
            default_window_seconds,
        }
    }

    /// Sets the capacity and window for future buckets of `target_id`,
    /// replacing an earlier entry for the same target.  Existing buckets
    /// keep the settings they were created with.
    pub fn configure_target(&mut self, target_id: &str, capacity: u32, window_seconds: u64)
        requires
            old(self)@.wf(),
        ensures
            final(self)@.wf(),
            final(self)@ == old(self)@.with_config(target_id@, capacity, window_seconds),
    {
        let tid: String = target_id.to_owned();
        let n: usize = self.configs.len();
        let mut i: usize = 0;
        while i < n
            invariant
                n == self.configs.len(),
                *self == *old(self),
                self@.wf(),
                tid@ == target_id@,
                forall|j: int| 0 <= j < i ==> self@.configs[j].target_id != target_id@,
            decreases n - i,
        {
            if self.configs[i].target_id == tid {
                proof {
                    lemma_config_index_is(self@, target_id@, i as int);
                }
                let entry = TargetConfig { target_id: tid, capacity, window_seconds };
                let ghost m0 = self@;
                self.configs.remove(i);
                self.configs.insert(i, entry);
                proof {
                    assert(self@.configs =~= m0.configs.update(
                        i as int,
                        ConfigModel { target_id: target_id@, capacity, window_seconds },
                    ));
                    assert(self@ =~= m0.with_config(target_id@, capacity, window_seconds));
                    assert forall|a: int, b: int|
                        #![trigger self@.configs[a], self@.configs[b]]
                        0 <= a < b < self@.configs.len() implies self@.configs[a].target_id
                        != self@.configs[b].target_id by {
                        if a != i && b != i {
                            assert(self@.configs[a] == m0.configs[a]);
                            assert(self@.configs[b] == m0.configs[b]);
                        }
                    }
                }
                return ;
            }
            i = i + 1;
        }
        let entry = TargetConfig { target_id: tid, capacity, window_seconds };
        let ghost m0 = self@;
        self.configs.push(entry);
        proof {
            assert(!m0.has_config(target_id@));
            assert(self@.configs =~= m0.configs.push(
                ConfigModel { target_id: target_id@, capacity, window_seconds },
            ));
            assert(self@ =~= m0.with_config(target_id@, capacity, window_seconds));
            assert forall|a: int, b: int|
                #![trigger self@.configs[a], self@.configs[b]]
                0 <= a < b < self@.configs.len() implies self@.configs[a].target_id
                != self@.configs[b].target_id by {
                if b == m0.configs.len() {
                    assert(self@.configs[a] == m0.configs[a]);
                } else {
                    assert(self@.configs[a] == m0.configs[a]);
                    assert(self@.configs[b] == m0.configs[b]);
                }
            }
        }
    }

    /// The first bucket whose key equals the given one, if any.
    fn find_bucket_index(&self, target_id: &String, task_type: &String) -> (r: Option<usize>)
        requires
            self@.keys_unique(),
        ensures
            match r {
                Some(i) => {
                    &&& self@.has_bucket(target_id@, task_type@)
                    &&& 0 <= i < self@.buckets.len()
                    &&& self@.bucket_index(target_id@, task_type@) == i as int
                },
                None => !self@.has_bucket(target_id@, task_type@),
            },
    {
        let n: usize = self.buckets.len();
        let mut i: usize = 0;
        while i < n
            invariant
                n == self.buckets.len(),
                self@.keys_unique(),
                forall|j: int|
                    0 <= j < i ==> !(#[trigger] self@.buckets[j]).matches_key(
                        target_id@,
                        task_type@,
                    ),
            decreases n - i,
        {
            let b = &self.buckets[i];
            if b.target_id == *target_id && b.task_type == *task_type {
                proof {
                    assert(self@.buckets[i as int].matches_key(target_id@, task_type@));
                    lemma_bucket_index_is(self@, target_id@, task_type@, i as int);
                }
                return Some(i);
            }
            i = i + 1;
        }
        None
    }

    /// The configured capacity and window for `target_id`, or the global
    /// defaults where the target has no entry.
    fn settings_for(&self, target_id: &String) -> (r: (u32, u64))
        requires
            self@.configs_unique(),
        ensures
            r.0 == self@.capacity_for(target_id@),
            r.1 == self@.window_for(target_id@),
    {
        let n: usize = self.configs.len();
        let mut i: usize = 0;
        while i < n
            invariant
                n == self.configs.len(),
                self@.configs_unique(),
                forall|j: int| 0 <= j < i ==> (#[trigger] self@.configs[j]).target_id != target_id@,
            decreases n - i,
        {
            let c = &self.configs[i];
            if c.target_id == *target_id {
                proof {
                    lemma_config_index_is(self@, target_id@, i as int);
                }
                return (c.capacity, c.window_seconds);
            }
            i = i + 1;
        }
        (self.default_capacity, self.default_window_seconds)
    }

    /// Pure admission query: true iff a task for this key may proceed at
    /// `now`.  Nothing is mutated; a window that has elapsed counts as
    /// empty, and an unknown key is judged by its configured capacity.
    pub fn can_schedule(&self, target_id: &str, task_type: &str, now: u64) -> (r: bool)
        requires
            self@.wf(),
        ensures
            r == self@.can_schedule(target_id@, task_type@, now),
    {
        let tid: String = target_id.to_owned();
        let tt: String = task_type.to_owned();
        match self.find_bucket_index(&tid, &tt) {
            Some(i) => {
                let b = &self.buckets[i];
                let elapsed: bool = (now as u128) >= (b.window_start as u128) + (
                b.window_seconds as u128);
                let eff: u32 = if elapsed {
                    0
                } else {
                    b.current_count
                };
                eff < b.capacity
            },
            None => {
                let defaults: (u32, u64) = self.settings_for(&tid);
                defaults.0 > 0
            },
        }
    }

    /// Checked admission: atomically decides `can_schedule` and, when the
    /// answer is yes, counts the admission (creating or resetting the
    /// bucket as needed).  Returns the decision.
    pub fn try_admit(&mut self, target_id: &str, task_type: &str, now: u64) -> (r: bool)
        requires
            old(self)@.wf(),
        ensures
            final(self)@.wf(),
            r == old(self)@.can_schedule(target_id@, task_type@, now),
            final(self)@ == old(self)@.after_admit(target_id@, task_type@, now),
    {
        proof {
            lemma_admit_preserves_wf(old(self)@, target_id@, task_type@, now);
        }
        let tid: String = target_id.to_owned();
        let tt: String = task_type.to_owned();
        match self.find_bucket_index(&tid, &tt) {
            Some(i) => {
                let elapsed: bool = {
                    let b = &self.buckets[i];
                    (now as u128) >= (b.window_start as u128) + (b.window_seconds as u128)
                };
                let eff: u32 = if elapsed {
                    0
                } else {
                    self.buckets[i].current_count
                };
                let cap: u32 = self.buckets[i].capacity;
                if eff < cap {
                    let ghost m0 = self@;
                    let mut b = self.buckets.remove(i);
                    if elapsed {
                        b.current_count = 1;
                        b.window_start = now;
                    } else {
                        b.current_count = b.current_count + 1;
                    }
                    self.buckets.insert(i, b);
                    proof {
                        assert(self@.buckets =~= m0.buckets.update(
                            i as int,
                            m0.buckets[i as int].admitted(now),
                        ));
                        assert(self@ =~= m0.after_admit(target_id@, task_type@, now));
                    }
                    true
                } else {
                    false
                }
            },
            None => {
                let defaults: (u32, u64) = self.settings_for(&tid);
                if defaults.0 > 0 {
                    let ghost m0 = self@;
                    let nb = RateBucket {
                        target_id: tid,
                        task_type: tt,
                        capacity: defaults.0,
                        window_seconds: defaults.1,
                        current_count: 1,
                        window_start: now,
                    };
                    self.buckets.push(nb);
                    proof {
                        assert(self@.buckets =~= m0.buckets.push(
                            BucketModel {
                                target_id: target_id@,
                                task_type: task_type@,
                                capacity: m0.capacity_for(target_id@),
                                window_seconds: m0.window_for(target_id@),
                                current_count: 1u32,
                                window_start: now,
                            },
                        ));
                        assert(self@ =~= m0.after_admit(target_id@, task_type@, now));
                    }
                    true
                } else {
                    false
                }
            },
        }
    }

    /// Records one completion for this key: the key's count falls by one,
    /// clamped at zero.  Returns true when the count held no unit to give
    /// back (a log-worthy oddity), false on a normal completion.
    pub fn record_completion(&mut self, target_id: &str, task_type: &str) -> (clamped: bool)
        requires
            old(self)@.wf(),
        ensures
            final(self)@.wf(),
            clamped == old(self)@.completion_clamped(target_id@, task_type@),
            final(self)@ == old(self)@.after_completion(target_id@, task_type@),
    {
        proof {
            lemma_completion_preserves_wf(old(self)@, target_id@, task_type@);
        }
        let tid: String = target_id.to_owned();
        let tt: String = task_type.to_owned();
        match self.find_bucket_index(&tid, &tt) {
            Some(i) => {
                if self.buckets[i].current_count > 0 {
                    let ghost m0 = self@;
                    let mut b = self.buckets.remove(i);
                    b.current_count = b.current_count - 1;
                    self.buckets.insert(i, b);
                    proof {
                        assert(self@.buckets =~= m0.buckets.update(
                            i as int,
                            m0.buckets[i as int].completed(),
                        ));
                        assert(self@ =~= m0.after_completion(target_id@, task_type@));
                    }
                    false
                } else {
                    true
                }
            },
            None => true,
        }
    }

    /// The stored count for a key, for observation; zero where the key
    /// has no bucket.
    pub fn admitted_count(&self, target_id: &str, task_type: &str) -> (r: u32)
        requires
            self@.wf(),
        ensures
            r == self@.count_for(target_id@, task_type@),
    {
        let tid: String = target_id.to_owned();
        let tt: String = task_type.to_owned();
        match self.find_bucket_index(&tid, &tt) {
            Some(i) => self.buckets[i].current_count,
            None => 0,
        }
    }
}

} // verus!
