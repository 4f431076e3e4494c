//! Priority-ordered scheduling of pending data transfers.
//!
//! Transfer tasks wait in a [`PriorityQueue`] until a transmission
//! opportunity appears; the queue hands out the most important task first,
//! and first-come-first-served among tasks of equal priority.
use vstd::prelude::*;

use crate::intmath::{isqrt_u128, sqrt_floor};
use crate::text::{dec_str, u64_to_dec_string};

verus! {

/// Priority tier for sync operations, ordered `Critical > High > Normal > Low`.
#[derive(Debug, Clone, Copy, PartialEq, Eq, Structural, Hash)]
pub enum Priority {
    /// Sync immediately.
    Critical,
    /// Sync at the next opportunity.
    High,
    /// Ordinary traffic.
    Normal,
    /// Sync when convenient.
    Low,
}

/// Numeric rank of a priority tier; a larger rank is served first.
pub open spec fn rank(p: Priority) -> nat {
    match p {
        Priority::Critical => 3,
        Priority::High => 2,
        Priority::Normal => 1,
        Priority::Low => 0,
    }
}

impl Priority {
    /// Executable form of [`rank`].
    pub fn rank(&self) -> (r: u8)
        ensures
            r as nat == rank(*self),
    {
        match self {
            Priority::Critical => 3,
            Priority::High => 2,
            Priority::Normal => 1,
            Priority::Low => 0,
        }
    }
}

/// A pending transfer awaiting a transmission opportunity.
#[derive(Debug, Clone)]
pub struct SyncTask {
    /// Identifier assigned by the queue, unique per queue.
    pub task_id: String,
    /// Node that owns the payload.
    pub node_id: String,
    /// Payload size in bytes.
    pub data_size_bytes: u64,
    /// Priority tier.
    pub priority: Priority,
    /// Free-text description.
    pub description: String,
}

/// The identifier string assigned to the `n`-th task.
pub open spec fn task_id_chars(n: nat) -> Seq<char> {
    "task_"@ + dec_str(n)
}

/// Index of the task that `pop_task` hands out: the first task of maximal
/// rank in insertion order.
pub open spec fn is_first_max(s: Seq<SyncTask>, i: int) -> bool {
    &&& 0 <= i < s.len()
    &&& forall|j: int| 0 <= j < s.len() ==> rank(s[j].priority) <= rank(s[i].priority)
    &&& forall|j: int| 0 <= j < i ==> rank(s[j].priority) < rank(s[i].priority)
}

/// Sum of the payload sizes of a sequence of tasks.
pub open spec fn sum_bytes(s: Seq<SyncTask>) -> int
    decreases s.len(),
{
    if s.len() == 0 {
        0
    } else {
        sum_bytes(s.drop_last()) + s.last().data_size_bytes
    }
}

/// Priority queue of pending transfers.
///
/// Tasks are held in insertion order; removal picks the first task of the
/// highest pending tier, so ties within a tier are served first-come-first-served.
#[derive(Debug)]
pub struct PriorityQueue {
    tasks: Vec<SyncTask>,
    counter: u64,
}

impl View for PriorityQueue {
    type V = Seq<SyncTask>;

    closed spec fn view(&self) -> Seq<SyncTask> {
        self.tasks@
    }
}

impl PriorityQueue {
    /// Number of identifiers handed out so far.
    pub closed spec fn spec_counter(&self) -> u64 {
        self.counter
    }

    /// Create an empty queue.
    pub fn new() -> (q: Self)
        ensures
            q@ == Seq::<SyncTask>::empty(),
            q.spec_counter() == 0,
    {
        PriorityQueue { tasks: Vec::new(), counter: 0 }
    }

    /// Append a task with a fresh, monotonically increasing identifier and
    /// return that identifier.
    pub fn add_task(
        &mut self,
        node_id: &str,
        data_size_bytes: u64,
        priority: Priority,
        description: &str,
    ) -> (task_id: String)
        requires
            old(self).spec_counter() < u64::MAX,
        ensures
            final(self).spec_counter() == old(self).spec_counter() + 1,
            task_id@ == task_id_chars(final(self).spec_counter() as nat),
            final(self)@ == old(self)@.push(
                SyncTask {
                    task_id: final(self)@.last().task_id,
                    node_id: final(self)@.last().node_id,
                    data_size_bytes,
                    priority,
                    description: final(self)@.last().description,
                },
            ),
            final(self)@.last().task_id@ == task_id@,
            final(self)@.last().node_id@ == node_id@,
            final(self)@.last().description@ == description@,
    {
        self.counter = self.counter + 1;
        let mut task_id = String::from_str("task_");
        let digits = u64_to_dec_string(self.counter);
        task_id.append(digits.as_str());
        let task = SyncTask {
            task_id: task_id.clone(),
            node_id: node_id.to_owned(),
            data_size_bytes,
            priority,
            description: description.to_owned(),
        };
        self.tasks.push(task);
        task_id
    }

    /// Index of the first task of maximal rank; the queue must be nonempty.
    fn first_max_index(&self) -> (i: usize)
        requires
            self@.len() > 0,
        ensures
            is_first_max(self@, i as int),
    {
        let mut best: usize = 0;
        let mut k: usize = 1;
        while k < self.tasks.len()
            invariant
                0 < k <= self.tasks.len(),
                best < k,
                forall|j: int|
                    0 <= j < k ==> rank(self.tasks@[j].priority) <= rank(
                        self.tasks@[best as int].priority,
                    ),
                forall|j: int|
                    0 <= j < best ==> rank(self.tasks@[j].priority) < rank(
                        self.tasks@[best as int].priority,
                    ),
            decreases self.tasks.len() - k,
        {
            if self.tasks[k].priority.rank() > self.tasks[best].priority.rank() {
                best = k;
            }
            k = k + 1;
        }
        best
    }

    /// Remove and return the highest-priority task, first-come-first-served
    /// within a tier; `None` on an empty queue.
    pub fn pop_task(&mut self) -> (r: Option<SyncTask>)
        ensures
            final(self).spec_counter() == old(self).spec_counter(),
            old(self)@.len() == 0 ==> r is None && final(self)@ == old(self)@,
            old(self)@.len() > 0 ==> exists|i: int|
                is_first_max(old(self)@, i) && r == Some(old(self)@[i]) && final(self)@ == old(
                    self,
                )@.remove(i),
    {
        if self.tasks.len() == 0 {
            return None;
        }
        let best = self.first_max_index();
        let task = self.tasks.remove(best);
        Some(task)
    }

    /// Look at the task that `pop_task` would return, without removing it.
    pub fn peek_task(&self) -> (r: Option<&SyncTask>)
        ensures
            r is Some <==> self@.len() > 0,
            self@.len() > 0 ==> exists|i: int|
                is_first_max(self@, i) && (r matches Some(t) && *t == self@[i]),
    {
        if self.tasks.len() == 0 {
            return None;
        }
        let best = self.first_max_index();
        Some(&self.tasks[best])
    }

    /// Whether the queue holds no tasks.
    pub fn is_empty(&self) -> (r: bool)
        ensures
            r == (self@.len() == 0),
    {
        self.tasks.is_empty()
    }

    /// Number of pending tasks.
    pub fn size(&self) -> (r: usize)
        ensures
            r == self@.len(),
    {
        self.tasks.len()
    }

    /// Total payload bytes pending, saturating at `u64::MAX`.
    pub fn total_bytes_pending(&self) -> (r: u64)
        ensures
            r as int == if sum_bytes(self@) <= u64::MAX as int {
                sum_bytes(self@)
            } else {
                u64::MAX as int
            },
    {
        let mut acc: u64 = 0;
        let mut k: usize = 0;
        while k < self.tasks.len()
            invariant
                k <= self.tasks.len(),
                acc as int == if sum_bytes(self@.subrange(0, k as int)) <= u64::MAX as int {
                    sum_bytes(self@.subrange(0, k as int))
                } else {
                    u64::MAX as int
                },
            decreases self.tasks.len() - k,
        {
            let b = self.tasks[k].data_size_bytes;
            proof {
                assert(self@.subrange(0, k + 1 as int).drop_last() =~= self@.subrange(
                    0,
                    k as int,
                ));
                assert(self@.subrange(0, k + 1 as int).last() == self@[k as int]);
            }
            if acc > u64::MAX - b {
                acc = u64::MAX;
            } else {
                acc = acc + b;
            }
            k = k + 1;
        }
        proof {
            assert(self@.subrange(0, self@.len() as int) =~= self@);
        }
        acc
    }
}

/// A ground station that satellites can sync against during a pass.
#[derive(Debug, Clone)]
pub struct GroundStation {
    /// Station name.
    pub name: String,
    /// Latitude in micro-degrees, positive north.
    pub latitude_udeg: i64,
    /// Longitude in micro-degrees, positive east.
    pub longitude_udeg: i64,
    /// Elevation above sea level in meters.
    pub elevation_m: i64,
    /// Downlink bandwidth in megabits per second.
    pub bandwidth_mbps: u64,
    /// Minimum usable elevation angle in degrees.
    pub min_elevation_deg: u64,
}

impl GroundStation {
    /// Create a station at the given location with default link settings.
    pub fn new(name: &str, latitude_udeg: i64, longitude_udeg: i64) -> (r: Self)
        ensures
            r.name@ == name@,
            r.latitude_udeg == latitude_udeg,
            r.longitude_udeg == longitude_udeg,
            r.elevation_m == 0,
            r.bandwidth_mbps == 100,
            r.min_elevation_deg == 5,
    {
        GroundStation {
            name: name.to_owned(),
            latitude_udeg,
            longitude_udeg,
            elevation_m: 0,
            bandwidth_mbps: 100,
            min_elevation_deg: 5,
        }
    }

    /// The Svalbard polar station.
    pub fn svalbard() -> (r: Self)
        ensures
            r.name@ == "Svalbard"@,
            r.latitude_udeg == 78230600,
            r.longitude_udeg == 15389400,
    {
        Self::new("Svalbard", 78230600, 15389400)
    }

    /// The Kourou equatorial station.
    pub fn kourou() -> (r: Self)
        ensures
            r.name@ == "Kourou"@,
            r.latitude_udeg == 5237800,
            r.longitude_udeg == -52768300,
    {
        Self::new("Kourou", 5237800, -52768300)
    }

    /// The default network: one polar and one equatorial station.
    pub fn default_network() -> (r: Vec<GroundStation>)
        ensures
            r@.len() == 2,
            r@[0].name@ == "Svalbard"@,
            r@[1].name@ == "Kourou"@,
    {
        let mut v: Vec<GroundStation> = Vec::new();
        v.push(Self::svalbard());
        v.push(Self::kourou());
        v
    }
}

/// The argument of the square root in the circular-orbit period formula:
/// `(a^3 / mu) * 10^6`, where `a` is the orbit radius in meters and `mu`
/// is Earth's gravitational parameter in cubic meters per second squared.
pub open spec fn period_sqrt_arg(alt_m: nat) -> int {
    let a = 6371000 + alt_m;
    (a * a * a * 1000000) as int / 398600441800000
}

/// Orbital period in milliseconds for a circular orbit at the given
/// altitude: `2 * pi * sqrt(a^3 / mu)`, carried out in fixed point.
pub open spec fn spec_period_ms(alt_m: nat) -> int {
    sqrt_floor(period_sqrt_arg(alt_m)) * 6283185307 / 1000000000
}

/// Snapshot of a scheduler's pending work and orbit statistics.
#[derive(Debug, Clone, Copy, PartialEq, Eq, Structural)]
pub struct ScheduleSummary {
    /// Tasks waiting in the queue.
    pub pending_tasks: usize,
    /// Total payload bytes pending, saturating at `u64::MAX`.
    pub pending_bytes: u64,
    /// Orbital period in milliseconds.
    pub orbital_period_ms: u64,
}

/// Scheduler that queues transfer tasks for the next ground-station pass.
///
/// Pass prediction is delegated to an external collaborator; this type only
/// orders the pending work and reports orbit-derived statistics.
#[derive(Debug)]
pub struct SyncScheduler {
    /// Stations available for downlink.
    pub ground_stations: Vec<GroundStation>,
    /// Orbit altitude in meters.
    pub orbit_altitude_m: u64,
    /// Orbit inclination in millidegrees.
    pub orbit_inclination_mdeg: u64,
    /// Pending transfer tasks.
    pub queue: PriorityQueue,
}

impl SyncScheduler {
    /// Create a scheduler for the default station network and a 550 km,
    /// 51.6 degree orbit.
    pub fn new() -> (r: Self)
        ensures
            r.orbit_altitude_m == 550000,
            r.orbit_inclination_mdeg == 51600,
            r.ground_stations@.len() == 2,
            r.queue@ == Seq::<SyncTask>::empty(),
            r.queue.spec_counter() == 0,
    {
        SyncScheduler {
            ground_stations: GroundStation::default_network(),
            orbit_altitude_m: 550000,
            orbit_inclination_mdeg: 51600,
            queue: PriorityQueue::new(),
        }
    }

    /// Orbital period in milliseconds, from circular-orbit mechanics.
    pub fn orbital_period_ms(&self) -> (p: u64)
        requires
            self.orbit_altitude_m <= 1000000000,
        ensures
            p as int == spec_period_ms(self.orbit_altitude_m as nat),
            p >= 6,
    {
        let a: u128 = 6371000 + self.orbit_altitude_m as u128;
        proof {
            assert((a as int) * (a as int) <= 1006371000int * 1006371000) by (nonlinear_arith)
                requires
                    0 < a as int <= 1006371000,
            ;
            assert((a as int) * (a as int) * (a as int) <= 1006371000int * 1006371000
                * 1006371000) by (nonlinear_arith)
                requires
                    0 < a as int <= 1006371000,
            ;
            assert((a as int) * (a as int) * (a as int) >= 6371000int * 6371000 * 6371000)
                by (nonlinear_arith)
                requires
                    a as int >= 6371000,
            ;
        }
        let n: u128 = a * a * a * 1000000 / 398600441800000;
        proof {
            assert(n as int == period_sqrt_arg(self.orbit_altitude_m as nat));
        }
        let s: u128 = isqrt_u128(n);
        proof {
            let si = s as int;
            let ni = n as int;
            assert(si * si <= ni);
            assert(si <= 40000000000000000) by (nonlinear_arith)
                requires
                    si >= 0,
                    si * si <= ni,
                    ni < 40000000000000000 * 40000000000000000,
            ;
            assert(si >= 1) by (nonlinear_arith)
                requires
                    si >= 0,
                    (si + 1) * (si + 1) > ni,
                    ni >= 1,
            ;
            assert(6283185307 <= si * 6283185307 <= 40000000000000000 * 6283185307)
                by (nonlinear_arith)
                requires
                    1 <= si <= 40000000000000000,
            ;
            vstd::arithmetic::div_mod::lemma_div_is_ordered(
                6283185307,
                si * 6283185307,
                1000000000,
            );
            vstd::arithmetic::div_mod::lemma_div_is_ordered(
                si * 6283185307,
                40000000000000000int * 6283185307,
                1000000000,
            );
        }
        let p: u128 = s * 6283185307 / 1000000000;
        p as u64
    }

    /// Thousandths of an orbit completed per day.
    pub fn orbits_per_day_milli(&self) -> (r: u64)
        requires
            self.orbit_altitude_m <= 1000000000,
        ensures
            r as int == 86400000000int / spec_period_ms(self.orbit_altitude_m as nat),
    {
        let p = self.orbital_period_ms();
        86400000000 / p
    }

    /// Queue a sync task; returns the assigned task identifier.
    pub fn schedule_sync(
        &mut self,
        node_id: &str,
        data_size_bytes: u64,
        priority: Priority,
        description: &str,
    ) -> (task_id: String)
        requires
            old(self).queue.spec_counter() < u64::MAX,
        ensures
            final(self).queue.spec_counter() == old(self).queue.spec_counter() + 1,
            final(self).queue@.len() == old(self).queue@.len() + 1,
            task_id@ == task_id_chars(final(self).queue.spec_counter() as nat),
            final(self).queue@.last().node_id@ == node_id@,
            final(self).queue@.last().data_size_bytes == data_size_bytes,
            final(self).queue@.last().priority == priority,
            final(self).ground_stations == old(self).ground_stations,
            final(self).orbit_altitude_m == old(self).orbit_altitude_m,
            final(self).orbit_inclination_mdeg == old(self).orbit_inclination_mdeg,
    {
        self.queue.add_task(node_id, data_size_bytes, priority, description)
    }

    /// Pending work and orbit statistics in one snapshot.
    pub fn get_schedule_summary(&self) -> (r: ScheduleSummary)
        requires
            self.orbit_altitude_m <= 1000000000,
        ensures
            r.pending_tasks == self.queue@.len(),
            r.pending_bytes as int == if sum_bytes(self.queue@) <= u64::MAX as int {
                sum_bytes(self.queue@)
            } else {
                u64::MAX as int
            },
            r.orbital_period_ms as int == spec_period_ms(self.orbit_altitude_m as nat),
    {
        ScheduleSummary {
            pending_tasks: self.queue.size(),
            pending_bytes: self.queue.total_bytes_pending(),
            orbital_period_ms: self.orbital_period_ms(),
        }
    }

    /// Predicted ground-station passes.
    ///
    /// Contact-window matching is delegated to an external collaborator;
    /// this scheduler never reasons about wall-clock windows, so the list
    /// is always empty.
    pub fn predict_passes(&self) -> (r: Vec<GroundStation>)
        ensures
            r@.len() == 0,
    {
        Vec::new()
    }
}

} // verus!
