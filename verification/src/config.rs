//! Parameters of validators and benchmarks.
use vstd::prelude::*;
use vstd::string::*;

use crate::duration::Duration;
use crate::text::push_decimal;

verus! {

/// How transactions are distributed over the proxies.
#[derive(Clone, Copy, Debug, PartialEq, Eq, Structural)]
pub enum LoadBalancingPolicy {
    /// One proxy after the other.
    RoundRobin,
    /// A random proxy.
    Random,
    /// The proxy that already has most of the required states.
    Zeus,
    /// The proxy that an offline schedule names.
    Hermes,
    /// The proxy with the best balance of required states and load.
    LocalityLoad,
    /// The proxy with the best balance of earlier accesses and load.
    AffinityAware,
    /// One proxy checks and another one executes.
    Dedicated,
    /// Each proxy checks and executes.
    Combined,
}

/// The capacity of the channels between components.
pub const DEFAULT_CHANNEL_SIZE: usize = 100_000;

/// Whether checking and executing are separated on the proxies.
#[derive(Clone, Copy, Debug, PartialEq, Eq, Structural)]
pub enum ProxyMode {
    /// The proxy separates the stateful and stateless transactions.
    Separation,
    /// The proxy does not separate the stateful and stateless transactions.
    NoSeparation,
}

/// Where checking is separated from executing.
#[derive(Clone, Copy, Debug, PartialEq, Eq, Structural)]
pub enum SeparationMode {
    /// Nowhere: a proxy checks a transaction right before it executes it.
    NoSeparation,
    /// On the proxy, which gets both in one message.
    ProxySeparation,
    /// On the primary, before it schedules the transaction.
    PrimaryPreSeparation,
    /// On the primary, after it schedules the transaction.
    PrimaryPostSeparation,
}

impl SeparationMode {
    /// Whether the proxies check transactions apart from executing them.
    pub open spec fn separates(self) -> bool {
        self != SeparationMode::NoSeparation
    }

    /// Whether the primary sends checking and executing apart.
    pub open spec fn separates_on_primary(self) -> bool {
        self == SeparationMode::PrimaryPreSeparation || self
            == SeparationMode::PrimaryPostSeparation
    }

    /// Whether the proxies check transactions apart from executing them.
    pub fn is_proxy_separation(&self) -> (separation: bool)
        ensures
            separation == self.separates(),
    {
        match self {
            SeparationMode::NoSeparation => false,
            _ => true,
        }
    }

    /// Whether the primary sends checking and executing apart.
    pub fn is_primary_separation(&self) -> (separation: bool)
        ensures
            separation == self.separates_on_primary(),
    {
        match self {
            SeparationMode::PrimaryPreSeparation => true,
            SeparationMode::PrimaryPostSeparation => true,
            _ => false,
        }
    }
}

/// The parameters for the validator.
#[derive(Clone, Copy, Debug)]
pub struct ValidatorParameters {
    /// The load balancing policy.
    pub load_balancing_policy: LoadBalancingPolicy,
    /// The proxy mode (separation or no separation).
    pub proxy_mode: ProxyMode,
}

/// The policy where none is given: round robin.
pub fn default_load_balancing_policy() -> (policy: LoadBalancingPolicy)
    ensures
        policy == LoadBalancingPolicy::RoundRobin,
{
    LoadBalancingPolicy::RoundRobin
}

/// The mode where none is given: separation.
pub fn default_proxy_mode() -> (mode: ProxyMode)
    ensures
        mode == ProxyMode::Separation,
{
    ProxyMode::Separation
}

impl ValidatorParameters {
    /// The parameters for tests: the default ones.
    pub fn new_for_tests() -> (parameters: Self)
        ensures
            parameters.load_balancing_policy == LoadBalancingPolicy::RoundRobin,
            parameters.proxy_mode == ProxyMode::Separation,
    {
        Self::default()
    }
}

impl Default for ValidatorParameters {
    fn default() -> (parameters: Self)
        ensures
            parameters.load_balancing_policy == LoadBalancingPolicy::RoundRobin,
            parameters.proxy_mode == ProxyMode::Separation,
    {
        ValidatorParameters {
            load_balancing_policy: default_load_balancing_policy(),
            proxy_mode: default_proxy_mode(),
        }
    }
}

/// The exponent of a Zipfian distribution, as the bits of its
/// double-precision form. The library only hands it on.
#[derive(Clone, Copy, Debug, PartialEq, Eq, Structural)]
pub struct Alpha {
    pub bits: u64,
}

/// A probability as the quotient of two numbers.
#[derive(Clone, Copy, Debug, PartialEq, Eq, Structural)]
pub struct Ratio {
    pub numerator: u32,
    pub denominator: u32,
}

impl Ratio {
    /// The quotient is a probability.
    pub open spec fn wf(self) -> bool {
        0 < self.denominator && self.numerator <= self.denominator
    }
}

/// The workload type to generate.
#[derive(Clone, Copy, Debug, PartialEq, Eq)]
pub enum WorkloadType {
    Transfers,
    SharedObjects { txs_per_counter: usize },
    SolanaTransactions,
    EthereumTransfers,
    EthereumNftMint,
    UniswapNormal,
    UniswapPeak,
    Zipfian { alpha: Alpha, number_of_inputs: usize },
    FakedNoContention { execution_duration: Duration, number_of_inputs: usize },
    FakedContention { execution_duration: Duration, number_of_inputs: usize, contention: u64 },
    FakeSolanaTransactions { execution_duration: Duration },
    FakeEthereumTransfers { execution_duration: Duration },
    FakeEthereumNftMint { execution_duration: Duration },
    FakeUniswapNormal { execution_duration: Duration },
    FakeUniswapPeak { execution_duration: Duration },
    FakeZipfian { execution_duration: Duration, alpha: Alpha, number_of_inputs: usize },
    Tpcc { num_warehouses: usize, payment_ratio: Ratio },
}

impl WorkloadType {
    /// Whether the workload is synthetic.
    pub open spec fn fake(self) -> bool {
        ||| self is FakedNoContention
        ||| self is FakedContention
        ||| self is FakeSolanaTransactions
        ||| self is FakeEthereumTransfers
        ||| self is FakeEthereumNftMint
        ||| self is FakeUniswapNormal
        ||| self is FakeUniswapPeak
        ||| self is FakeZipfian
    }

    /// Whether the workload is synthetic.
    pub fn is_fake(&self) -> (fake: bool)
        ensures
            fake == self.fake(),
    {
        match self {
            WorkloadType::FakedNoContention { .. } => true,
            WorkloadType::FakedContention { .. } => true,
            WorkloadType::FakeSolanaTransactions { .. } => true,
            WorkloadType::FakeEthereumTransfers { .. } => true,
            WorkloadType::FakeEthereumNftMint { .. } => true,
            WorkloadType::FakeUniswapNormal { .. } => true,
            WorkloadType::FakeUniswapPeak { .. } => true,
            WorkloadType::FakeZipfian { .. } => true,
            _ => false,
        }
    }

    /// Whether the workload is the database benchmark.
    pub fn is_tpcc(&self) -> (tpcc: bool)
        ensures
            tpcc == (self is Tpcc),
    {
        match self {
            WorkloadType::Tpcc { .. } => true,
            _ => false,
        }
    }

    /// How long a synthetic transaction executes, where the fake executor
    /// supports the workload.
    pub open spec fn fake_duration(self) -> Option<Duration> {
        match self {
            WorkloadType::FakedNoContention { execution_duration, .. } => Some(execution_duration),
            WorkloadType::FakedContention { execution_duration, .. } => Some(execution_duration),
            WorkloadType::FakeSolanaTransactions { execution_duration } => Some(execution_duration),
            WorkloadType::FakeEthereumTransfers { execution_duration } => Some(execution_duration),
            WorkloadType::FakeEthereumNftMint { execution_duration } => Some(execution_duration),
            WorkloadType::FakeUniswapNormal { execution_duration } => Some(execution_duration),
            WorkloadType::FakeUniswapPeak { execution_duration } => Some(execution_duration),
            WorkloadType::FakeZipfian { execution_duration, .. } => Some(execution_duration),
            _ => None,
        }
    }

    /// How long a synthetic transaction executes, where the fake executor
    /// supports the workload.
    pub fn fake_execution_duration(&self) -> (duration: Option<Duration>)
        ensures
            duration == self.fake_duration(),
    {
        match *self {
            WorkloadType::FakedNoContention { execution_duration, .. } => Some(execution_duration),
            WorkloadType::FakedContention { execution_duration, .. } => Some(execution_duration),
            WorkloadType::FakeSolanaTransactions { execution_duration } => Some(execution_duration),
            WorkloadType::FakeEthereumTransfers { execution_duration } => Some(execution_duration),
            WorkloadType::FakeEthereumNftMint { execution_duration } => Some(execution_duration),
            WorkloadType::FakeUniswapNormal { execution_duration } => Some(execution_duration),
            WorkloadType::FakeUniswapPeak { execution_duration } => Some(execution_duration),
            WorkloadType::FakeZipfian { execution_duration, .. } => Some(execution_duration),
            _ => None,
        }
    }

    /// The name of the workload.
    pub open spec fn label(self) -> Seq<char> {
        match self {
            WorkloadType::Transfers => "transfers"@,
            WorkloadType::SharedObjects { .. } => "shared objects"@,
            WorkloadType::SolanaTransactions => "Solana transactions"@,
            WorkloadType::EthereumTransfers => "Ethereum transfers"@,
            WorkloadType::EthereumNftMint => "Ethereum NFT mint"@,
            WorkloadType::UniswapNormal => "Uniswap normal"@,
            WorkloadType::UniswapPeak => "Uniswap peak"@,
            WorkloadType::Zipfian { .. } => "Zipfian"@,
            WorkloadType::FakedNoContention { .. } => "Fake owned objects"@,
            WorkloadType::FakedContention { .. } => "Fake shared objects"@,
            WorkloadType::FakeSolanaTransactions { .. } => "Fake Solana transactions"@,
            WorkloadType::FakeEthereumTransfers { .. } => "Fake Ethereum transfers"@,
            WorkloadType::FakeEthereumNftMint { .. } => "Fake Ethereum NFT mint"@,
            WorkloadType::FakeUniswapNormal { .. } => "Fake Uniswap normal"@,
            WorkloadType::FakeUniswapPeak { .. } => "Fake Uniswap peak"@,
            WorkloadType::FakeZipfian { .. } => "Fake Zipfian"@,
            WorkloadType::Tpcc { .. } => "TPC-C"@,
        }
    }

    /// The name of the workload.
    pub fn name(&self) -> (name: String)
        ensures
            name@ == self.label(),
    {
        match self {
            WorkloadType::Transfers => String::from_str("transfers"),
            WorkloadType::SharedObjects { .. } => String::from_str("shared objects"),
            WorkloadType::SolanaTransactions => String::from_str("Solana transactions"),
            WorkloadType::EthereumTransfers => String::from_str("Ethereum transfers"),
            WorkloadType::EthereumNftMint => String::from_str("Ethereum NFT mint"),
            WorkloadType::UniswapNormal => String::from_str("Uniswap normal"),
            WorkloadType::UniswapPeak => String::from_str("Uniswap peak"),
            WorkloadType::Zipfian { .. } => String::from_str("Zipfian"),
            WorkloadType::FakedNoContention { .. } => String::from_str("Fake owned objects"),
            WorkloadType::FakedContention { .. } => String::from_str("Fake shared objects"),
            WorkloadType::FakeSolanaTransactions { .. } => String::from_str(
                "Fake Solana transactions",
            ),
            WorkloadType::FakeEthereumTransfers { .. } => String::from_str(
                "Fake Ethereum transfers",
            ),
            WorkloadType::FakeEthereumNftMint { .. } => String::from_str("Fake Ethereum NFT mint"),
            WorkloadType::FakeUniswapNormal { .. } => String::from_str("Fake Uniswap normal"),
            WorkloadType::FakeUniswapPeak { .. } => String::from_str("Fake Uniswap peak"),
            WorkloadType::FakeZipfian { .. } => String::from_str("Fake Zipfian"),
            WorkloadType::Tpcc { .. } => String::from_str("TPC-C"),
        }
    }
}

/// The number of transactions per counter where none is given.
pub fn default_cont_level_for_shared_obj() -> (level: usize)
    ensures
        level == 2,
{
    2
}

/// How long a synthetic transaction executes where nothing is given: 500 microseconds.
pub fn default_fake_execution_duration() -> (duration: Duration)
    ensures
        duration.wf(),
        duration.micros() == 500,
        duration.total_nanos() == 500_000,
{
    Duration::from_micros(500)
}

/// The exponent where none is given: one half.
pub fn default_zipfian_alpha() -> (alpha: Alpha)
    ensures
        alpha.bits == 0x3fe0_0000_0000_0000u64,
{
    Alpha { bits: 0x3fe0_0000_0000_0000u64 }
}

/// The number of inputs where none is given.
pub fn default_number_of_inputs() -> (count: usize)
    ensures
        count == 2,
{
    2
}

/// What is wrong with a configuration.
#[derive(Clone, Copy, Debug, PartialEq, Eq, Structural)]
pub enum ConfigErrorType {
    /// The workload is not supported.
    InvalidWorkload,
}

impl ConfigErrorType {
    /// The text of the error.
    pub fn message(&self) -> (message: String)
        ensures
            message@ == "Invalid workload type provided."@,
    {
        match self {
            ConfigErrorType::InvalidWorkload => String::from_str("Invalid workload type provided."),
        }
    }
}

/// A load interval with timing and target load rate.
#[derive(Clone, Copy, Debug, PartialEq, Eq, Structural)]
pub struct LoadInterval {
    /// Start time for this interval in seconds from benchmark start.
    pub start_time_secs: u64,
    /// End time for this interval in seconds from benchmark start.
    pub end_time_secs: u64,
    /// Target load rate in transactions per second for this interval.
    pub target_load: u64,
}

impl LoadInterval {
    /// Whether a moment lies in the interval, whose end is not part of it.
    pub open spec fn covers(self, secs: u64) -> bool {
        self.start_time_secs <= secs < self.end_time_secs
    }

    /// The number of transactions of the interval.
    pub open spec fn transactions(self) -> int {
        self.target_load * (self.end_time_secs - self.start_time_secs)
    }
}

/// Configuration for dynamic load rates with time-based intervals.
#[derive(Debug)]
pub struct DynamicLoadConfig {
    /// Total duration of the benchmark in seconds.
    pub total_duration_secs: u64,
    /// List of load intervals defining the load pattern.
    pub intervals: Vec<LoadInterval>,
}

/// Whether `order` puts a list of starts in increasing order and keeps those
/// with the same start in the order of the list.
pub open spec fn is_stable_order(order: Seq<int>, list: Seq<(u64, u64)>) -> bool {
    &&& order.len() == list.len()
    &&& forall|i: int| 0 <= i < order.len() ==> 0 <= #[trigger] order[i] < list.len()
    &&& forall|i: int, j: int|
        0 <= i < j < order.len() ==> {
            ||| list[#[trigger] order[i]].0 < list[#[trigger] order[j]].0
            ||| list[order[i]].0 == list[order[j]].0 && order[i] < order[j]
        }
}

/// The intervals of a list of starts that is already in order: each reaches up
/// to the next start, the last one up to the end of the benchmark.
pub open spec fn intervals_of(sorted: Seq<(u64, u64)>, duration_secs: u64) -> Seq<LoadInterval> {
    Seq::new(
        sorted.len(),
        |i: int|
            LoadInterval {
                start_time_secs: sorted[i].0,
                end_time_secs: if i + 1 < sorted.len() {
                    sorted[i + 1].0
                } else {
                    duration_secs
                },
                target_load: sorted[i].1,
            },
    )
}

/// The target load of the first interval that covers a moment.
pub open spec fn load_at(intervals: Seq<LoadInterval>, secs: u64) -> Option<u64>
    decreases intervals.len(),
{
    if intervals.len() == 0 {
        None
    } else if intervals[0].covers(secs) {
        Some(intervals[0].target_load)
    } else {
        load_at(intervals.skip(1), secs)
    }
}

/// The number of transactions of all intervals.
pub open spec fn total_transactions(intervals: Seq<LoadInterval>) -> int
    decreases intervals.len(),
{
    if intervals.len() == 0 {
        0
    } else {
        total_transactions(intervals.drop_last()) + intervals.last().transactions()
    }
}

/// Where the interval at a position has to start: where the one before it ends.
pub open spec fn expected_start(intervals: Seq<LoadInterval>, i: int) -> u64 {
    if i == 0 {
        0
    } else {
        intervals[i - 1].end_time_secs
    }
}

/// Whether the interval at a position starts where it has to and is not empty.
pub open spec fn interval_ok(intervals: Seq<LoadInterval>, i: int) -> bool {
    &&& intervals[i].start_time_secs == expected_start(intervals, i)
    &&& intervals[i].start_time_secs < intervals[i].end_time_secs
}

/// Whether the interval at a position is the first that is wrong.
pub open spec fn first_wrong(intervals: Seq<LoadInterval>, i: int) -> bool {
    &&& 0 <= i < intervals.len()
    &&& !interval_ok(intervals, i)
    &&& forall|j: int| 0 <= j < i ==> #[trigger] interval_ok(intervals, j)
}

impl DynamicLoadConfig {
    /// Whether the intervals follow on each other without gap from the start of
    /// the benchmark to its end.
    pub open spec fn valid(&self) -> bool {
        &&& self.intervals@.len() > 0
        &&& forall|i: int| 0 <= i < self.intervals@.len() ==> #[trigger] interval_ok(
            self.intervals@,
            i,
        )
        &&& self.intervals@.last().end_time_secs == self.total_duration_secs
    }

    /// What the text of the error says where the configuration is not valid.
    pub open spec fn complaint(&self, text: Seq<char>) -> bool {
        let intervals = self.intervals@;
        if intervals.len() == 0 {
            text =~= "Dynamic load config must have at least one interval"@
        } else if exists|i: int| first_wrong(intervals, i) {
            let i = choose|i: int| first_wrong(intervals, i);
            if intervals[i].start_time_secs != expected_start(intervals, i) {
                text =~= "Gap or overlap in intervals: expected start "@ + crate::text::decimal(
                    expected_start(intervals, i) as nat,
                ) + " but got "@ + crate::text::decimal(intervals[i].start_time_secs as nat)
            } else {
                text =~= "Invalid interval: end time "@ + crate::text::decimal(
                    intervals[i].end_time_secs as nat,
                ) + " <= start time "@ + crate::text::decimal(
                    intervals[i].start_time_secs as nat,
                )
            }
        } else {
            text =~= "Intervals don't cover full duration: "@ + crate::text::decimal(
                intervals.last().end_time_secs as nat,
            ) + " vs "@ + crate::text::decimal(self.total_duration_secs as nat)
        }
    }

    /// A configuration from a list of starts with the load from there on.
    pub fn from_intervals(duration_secs: u64, interval_map: &Vec<(u64, u64)>) -> (config: Self)
        ensures
            config.total_duration_secs == duration_secs,
            exists|order: Seq<int>| #[trigger]
                is_stable_order(order, interval_map@) && config.intervals@ =~= intervals_of(
                    order.map_values(|k: int| interval_map@[k]),
                    duration_secs,
                ),
    {
        let ghost mut order: Seq<int> = Seq::empty();
        let mut sorted: Vec<(u64, u64)> = Vec::new();
        let mut i: usize = 0;
        while i < interval_map.len()
            invariant
                i <= interval_map.len(),
                is_stable_order(order, interval_map@.take(i as int)),
                sorted@.len() == order.len(),
                forall|k: int|
                    0 <= k < order.len() ==> #[trigger] sorted@[k] == interval_map@[order[k]],
            decreases interval_map.len() - i,
        {
            let item: (u64, u64) = interval_map[i];
            let ghost before = sorted@;
            let mut at: usize = 0;
            while at < sorted.len() && sorted[at].0 <= item.0
                invariant
                    at <= sorted.len(),
                    sorted@ == before,
                    forall|k: int| 0 <= k < at ==> (#[trigger] before[k]).0 <= item.0,
                decreases sorted.len() - at,
            {
                at = at + 1;
            }
            sorted.insert(at, item);
            proof {
                let shorter = interval_map@.take(i as int);
                let longer = interval_map@.take(i + 1);
                let next = order.insert(at as int, i as int);
                assert forall|k: int| 0 <= k < order.len() implies #[trigger] before[k]
                    == longer[order[k]] && order[k] < i by {
                    assert(shorter[order[k]] == interval_map@[order[k]]);
                }
                assert forall|k: int| at <= k < order.len() implies (#[trigger] before[k]).0
                    > item.0 by {
                    if k > at {
                        let a = order[at as int];
                        let b = order[k];
                        assert(shorter[a].0 <= shorter[b].0);
                        assert(before[at as int] == shorter[a]);
                        assert(before[k] == shorter[b]);
                    }
                }
                assert forall|a: int, b: int| 0 <= a < b < next.len() implies {
                    ||| longer[#[trigger] next[a]].0 < longer[#[trigger] next[b]].0
                    ||| longer[next[a]].0 == longer[next[b]].0 && next[a] < next[b]
                } by {
                    let oa = if a < at {
                        a
                    } else {
                        a - 1
                    };
                    let ob = if b < at {
                        b
                    } else {
                        b - 1
                    };
                    if a != at && b != at {
                        assert(next[a] == order[oa] && next[b] == order[ob]);
                        assert(shorter[order[oa]] == longer[order[oa]]);
                        assert(shorter[order[ob]] == longer[order[ob]]);
                    } else if a == at {
                        assert(before[ob].0 > item.0);
                    } else {
                        assert(before[oa].0 <= item.0);
                    }
                }
                assert forall|k: int| 0 <= k < next.len() implies #[trigger] sorted@[k]
                    == interval_map@[next[k]] by {
                    if k < at {
                        assert(sorted@[k] == before[k]);
                    } else if k > at {
                        assert(sorted@[k] == before[k - 1]);
                    }
                }
                order = next;
            }
            i = i + 1;
        }
        proof {
            assert(interval_map@.take(i as int) =~= interval_map@);
            assert(sorted@ =~= order.map_values(|k: int| interval_map@[k]));
        }
        let mut intervals: Vec<LoadInterval> = Vec::new();
        let mut j: usize = 0;
        while j < sorted.len()
            invariant
                j <= sorted.len(),
                intervals@ =~= intervals_of(sorted@, duration_secs).take(j as int),
            decreases sorted.len() - j,
        {
            let end_time_secs: u64 = if j + 1 < sorted.len() {
                sorted[j + 1].0
            } else {
                duration_secs
            };
            intervals.push(
                LoadInterval {
                    start_time_secs: sorted[j].0,
                    end_time_secs,
                    target_load: sorted[j].1,
                },
            );
            j = j + 1;
        }
        DynamicLoadConfig { total_duration_secs: duration_secs, intervals }
    }

    /// The target load at a moment, `None` where no interval covers it.
    pub fn get_load_at_time(&self, elapsed_secs: u64) -> (load: Option<u64>)
        ensures
            load == load_at(self.intervals@, elapsed_secs),
    {
        let mut i: usize = 0;
        proof {
            assert(self.intervals@.skip(0) =~= self.intervals@);
        }
        while i < self.intervals.len()
            invariant
                i <= self.intervals.len(),
                load_at(self.intervals@, elapsed_secs) == load_at(
                    self.intervals@.skip(i as int),
                    elapsed_secs,
                ),
            decreases self.intervals.len() - i,
        {
            proof {
                assert(self.intervals@.skip(i as int).skip(1) =~= self.intervals@.skip(i + 1));
            }
            let interval: LoadInterval = self.intervals[i];
            if elapsed_secs >= interval.start_time_secs && elapsed_secs < interval.end_time_secs {
                return Some(interval.target_load);
            }
            i = i + 1;
        }
        None
    }

    /// Whether the configuration is well-formed, and what is wrong with it if not.
    pub fn validate(&self) -> (checked: Result<(), String>)
        ensures
            match checked {
                Ok(()) => self.valid(),
                Err(text) => !self.valid() && self.complaint(text@),
            },
    {
        if self.intervals.len() == 0 {
            return Err(String::from_str("Dynamic load config must have at least one interval"));
        }
        let mut prev_end: u64 = 0;
        let mut i: usize = 0;
        while i < self.intervals.len()
            invariant
                i <= self.intervals.len(),
                prev_end == expected_start(self.intervals@, i as int),
                forall|j: int| 0 <= j < i ==> #[trigger] interval_ok(self.intervals@, j),
            decreases self.intervals.len() - i,
        {
            let interval: LoadInterval = self.intervals[i];
            proof {
                lemma_first_wrong_unique(self.intervals@, i as int);
            }
            if interval.start_time_secs != prev_end {
                let mut text: String = String::from_str(
                    "Gap or overlap in intervals: expected start ",
                );
                push_decimal(&mut text, prev_end);
                text.append(" but got ");
                push_decimal(&mut text, interval.start_time_secs);
                assert(!interval_ok(self.intervals@, i as int));
                return Err(text);
            }
            if interval.end_time_secs <= interval.start_time_secs {
                let mut text: String = String::from_str("Invalid interval: end time ");
                push_decimal(&mut text, interval.end_time_secs);
                text.append(" <= start time ");
                push_decimal(&mut text, interval.start_time_secs);
                assert(!interval_ok(self.intervals@, i as int));
                return Err(text);
            }
            prev_end = interval.end_time_secs;
            i = i + 1;
        }
        if prev_end != self.total_duration_secs {
            let mut text: String = String::from_str("Intervals don't cover full duration: ");
            push_decimal(&mut text, prev_end);
            text.append(" vs ");
            push_decimal(&mut text, self.total_duration_secs);
            return Err(text);
        }
        Ok(())
    }
}

proof fn lemma_first_wrong_unique(intervals: Seq<LoadInterval>, i: int)
    requires
        0 <= i < intervals.len(),
        forall|j: int| 0 <= j < i ==> #[trigger] interval_ok(intervals, j),
    ensures
        !interval_ok(intervals, i) ==> first_wrong(intervals, i) && (choose|k: int|
            first_wrong(intervals, k)) == i,
{
    if !interval_ok(intervals, i) {
        assert(first_wrong(intervals, i));
        let k = choose|k: int| first_wrong(intervals, k);
        assert(first_wrong(intervals, k));
        if k < i {
            assert(interval_ok(intervals, k));
        } else if i < k {
            assert(interval_ok(intervals, i));
        }
    }
}

/// Under a valid configuration every moment of the benchmark has a target
/// load, and no moment after its end has one.
pub proof fn law_valid_load_covers_benchmark(config: DynamicLoadConfig, secs: u64)
    requires
        config.valid(),
    ensures
        load_at(config.intervals@, secs) is Some <==> secs < config.total_duration_secs,
{
    lemma_load_at(config.intervals@, secs);
    let intervals = config.intervals@;
    if secs < config.total_duration_secs {
        lemma_covered(intervals, secs, intervals.len() - 1);
    } else {
        assert forall|i: int| 0 <= i < intervals.len() implies !(#[trigger] intervals[i]).covers(
            secs,
        ) by {
            lemma_ends_increase(intervals, i, intervals.len() - 1);
        }
    }
}

proof fn lemma_load_at(intervals: Seq<LoadInterval>, secs: u64)
    ensures
        load_at(intervals, secs) is Some <==> exists|i: int|
            0 <= i < intervals.len() && (#[trigger] intervals[i]).covers(secs),
    decreases intervals.len(),
{
    if intervals.len() > 0 {
        let rest = intervals.skip(1);
        lemma_load_at(rest, secs);
        if exists|i: int| 0 <= i < rest.len() && (#[trigger] rest[i]).covers(secs) {
            let i = choose|i: int| 0 <= i < rest.len() && (#[trigger] rest[i]).covers(secs);
            assert(intervals[i + 1] == rest[i]);
        }
        if exists|i: int| 0 <= i < intervals.len() && (#[trigger] intervals[i]).covers(secs) {
            let i = choose|i: int|
                0 <= i < intervals.len() && (#[trigger] intervals[i]).covers(secs);
            if i > 0 {
                assert(rest[i - 1] == intervals[i]);
            }
        }
    }
}

proof fn lemma_covered(intervals: Seq<LoadInterval>, secs: u64, last: int)
    requires
        0 <= last < intervals.len(),
        forall|i: int| 0 <= i < intervals.len() ==> #[trigger] interval_ok(intervals, i),
        secs < intervals[last].end_time_secs,
    ensures
        exists|i: int| 0 <= i <= last && (#[trigger] intervals[i]).covers(secs),
    decreases last,
{
    assert(interval_ok(intervals, last));
    if intervals[last].start_time_secs <= secs {
        assert(intervals[last].covers(secs));
    } else {
        assert(last > 0);
        lemma_covered(intervals, secs, last - 1);
    }
}

proof fn lemma_ends_increase(intervals: Seq<LoadInterval>, i: int, last: int)
    requires
        0 <= i <= last < intervals.len(),
        forall|k: int| 0 <= k < intervals.len() ==> #[trigger] interval_ok(intervals, k),
    ensures
        intervals[i].end_time_secs <= intervals[last].end_time_secs,
    decreases last - i,
{
    if i < last {
        lemma_ends_increase(intervals, i, last - 1);
        assert(interval_ok(intervals, last));
    }
}

/// Load configuration that supports both constant and dynamic load rates.
#[derive(Debug)]
pub enum LoadConfig {
    /// Constant load rate throughout the benchmark.
    Constant(u64),
    /// Dynamic load rates with time-based intervals.
    Dynamic(DynamicLoadConfig),
}

impl LoadConfig {
    /// The load at a moment: 0 where no interval covers it.
    pub fn get_load_at_time(&self, elapsed_secs: u64) -> (load: u64)
        ensures
            load == (match self {
                LoadConfig::Constant(load) => *load,
                LoadConfig::Dynamic(config) => match load_at(config.intervals@, elapsed_secs) {
                    Some(load) => load,
                    None => 0,
                },
            }),
    {
        match self {
            LoadConfig::Constant(load) => *load,
            LoadConfig::Dynamic(config) => match config.get_load_at_time(elapsed_secs) {
                Some(load) => load,
                None => 0,
            },
        }
    }

    /// The load that a benchmark starts with.
    pub open spec fn first_load(&self) -> u64 {
        match self {
            LoadConfig::Constant(load) => *load,
            LoadConfig::Dynamic(config) => if config.intervals@.len() == 0 {
                0
            } else {
                config.intervals@[0].target_load
            },
        }
    }

    /// The load that a benchmark starts with.
    pub fn initial_load(&self) -> (load: u64)
        ensures
            load == self.first_load(),
    {
        match self {
            LoadConfig::Constant(load) => *load,
            LoadConfig::Dynamic(config) => if config.intervals.len() == 0 {
                0
            } else {
                config.intervals[0].target_load
            },
        }
    }

    /// Whether the load varies.
    pub fn is_dynamic(&self) -> (dynamic: bool)
        ensures
            dynamic == (self is Dynamic),
    {
        match self {
            LoadConfig::Dynamic(_) => true,
            LoadConfig::Constant(_) => false,
        }
    }

    /// The duration that a dynamic load sets.
    pub open spec fn own_duration(&self) -> Option<Duration> {
        match self {
            LoadConfig::Constant(_) => None,
            LoadConfig::Dynamic(config) => Some(
                Duration { secs: config.total_duration_secs, nanos: 0 },
            ),
        }
    }

    /// The duration that a dynamic load sets.
    pub fn get_duration(&self) -> (duration: Option<Duration>)
        ensures
            duration == self.own_duration(),
    {
        match self {
            LoadConfig::Constant(_) => None,
            LoadConfig::Dynamic(config) => Some(Duration::from_secs(config.total_duration_secs)),
        }
    }

    /// The number of transactions that the load takes.
    pub open spec fn transactions(&self, fallback: Duration) -> int {
        match self {
            LoadConfig::Constant(load) => load * fallback.secs,
            LoadConfig::Dynamic(config) => total_transactions(config.intervals@),
        }
    }

    /// Whether the number of transactions can be counted: no interval ends
    /// before it starts, and no sum is too large.
    pub open spec fn countable(&self, fallback: Duration) -> bool {
        &&& self.transactions(fallback) <= u64::MAX
        &&& self matches LoadConfig::Dynamic(config) ==> forall|i: int|
            0 <= i < config.intervals@.len() ==> (#[trigger] config.intervals@[i]).start_time_secs
                <= config.intervals@[i].end_time_secs
    }

    /// The number of transactions that the load takes: the sum over all
    /// intervals, or the load over a fallback duration where it is constant.
    pub fn calculate_total_transactions(&self, fallback_duration: Duration) -> (total: u64)
        requires
            self.countable(fallback_duration),
        ensures
            total == self.transactions(fallback_duration),
    {
        match self {
            LoadConfig::Constant(load) => *load * fallback_duration.as_secs(),
            LoadConfig::Dynamic(config) => {
                let mut total: u64 = 0;
                let mut i: usize = 0;
                while i < config.intervals.len()
                    invariant
                        i <= config.intervals.len(),
                        total_transactions(config.intervals@) <= u64::MAX,
                        forall|k: int|
                            0 <= k < config.intervals@.len() ==> (
                            #[trigger] config.intervals@[k]).start_time_secs
                                <= config.intervals@[k].end_time_secs,
                        total == total_transactions(config.intervals@.take(i as int)),
                    decreases config.intervals.len() - i,
                {
                    let interval: LoadInterval = config.intervals[i];
                    proof {
                        let longer = config.intervals@.take(i + 1);
                        assert(longer.drop_last() =~= config.intervals@.take(i as int));
                        lemma_total_monotone(config.intervals@, i + 1);
                        assert(interval.transactions() >= 0) by (nonlinear_arith)
                            requires
                                interval.transactions() == interval.target_load * (
                                interval.end_time_secs - interval.start_time_secs),
                                interval.start_time_secs <= interval.end_time_secs,
                        ;
                    }
                    total = total + interval.target_load * (interval.end_time_secs
                        - interval.start_time_secs);
                    i = i + 1;
                }
                proof {
                    assert(config.intervals@.take(i as int) =~= config.intervals@);
                }
                total
            },
        }
    }
}

proof fn lemma_total_monotone(intervals: Seq<LoadInterval>, i: int)
    requires
        0 <= i <= intervals.len(),
        forall|k: int|
            0 <= k < intervals.len() ==> (#[trigger] intervals[k]).start_time_secs
                <= intervals[k].end_time_secs,
    ensures
        0 <= total_transactions(intervals.take(i)) <= total_transactions(intervals),
    decreases intervals.len(),
{
    if intervals.len() > 0 {
        let last = intervals.last();
        assert(last == intervals[intervals.len() - 1]);
        assert(last.transactions() >= 0) by (nonlinear_arith)
            requires
                last.transactions() == last.target_load * (last.end_time_secs
                    - last.start_time_secs),
                last.start_time_secs <= last.end_time_secs,
        ;
        let rest = intervals.drop_last();
        assert forall|k: int| 0 <= k < rest.len() implies (#[trigger] rest[k]).start_time_secs
            <= rest[k].end_time_secs by {
            assert(rest[k] == intervals[k]);
        }
        if i < intervals.len() {
            assert(intervals.take(i) =~= rest.take(i));
            lemma_total_monotone(rest, i);
        } else {
            assert(intervals.take(i) =~= intervals);
            lemma_total_monotone(rest, 0);
        }
    } else {
        assert(intervals.take(i) =~= intervals);
    }
}

impl Default for LoadConfig {
    fn default() -> (config: Self)
        ensures
            config == LoadConfig::Constant(10_000),
    {
        LoadConfig::Constant(default_load())
    }
}

/// How the offline schedule assigns transactions.
#[derive(Clone, Copy, Debug, PartialEq, Eq, Structural)]
pub enum AssignmentMode {
    /// Transactions may be reordered.
    Reordering,
    /// Transactions are assigned one by one.
    Sequential,
}

/// The configuration for the benchmark.
#[derive(Debug)]
pub struct BenchmarkParameters {
    /// The load to generate - either constant or dynamic.
    pub load_config: LoadConfig,
    /// The constant load in transactions per second, which takes precedence.
    pub load: Option<u64>,
    /// The duration to run the benchmark for.
    pub duration: Duration,
    /// The workload to generate.
    pub workload: WorkloadType,
    /// The verification duration.
    pub verification_duration: Duration,
    /// The expected stateful duration, used for load balancing.
    pub expected_stateful_duration: Duration,
    /// The assignment mode for transaction scheduling.
    pub assignment_mode: AssignmentMode,
}

/// The load configuration where none is given.
pub fn default_load_config() -> (config: LoadConfig)
    ensures
        config == LoadConfig::Constant(10_000),
{
    LoadConfig::Constant(default_load())
}

/// The load where none is given: 10000 transactions per second.
pub fn default_load() -> (load: u64)
    ensures
        load == 10_000,
{
    10_000
}

/// The duration where none is given: 30 seconds.
pub fn default_duration() -> (duration: Duration)
    ensures
        duration.wf(),
        duration.total_nanos() == 30_000_000_000,
{
    Duration::from_secs(30)
}

/// The workload where none is given: transfers.
pub fn default_workload() -> (workload: WorkloadType)
    ensures
        workload is Transfers,
{
    WorkloadType::Transfers
}

/// How long checking a transaction takes where nothing is given: 2 milliseconds.
pub fn default_fake_verification_duration() -> (duration: Duration)
    ensures
        duration.wf(),
        duration.micros() == 2000,
        duration.total_nanos() == 2_000_000,
{
    Duration::from_micros(2000)
}

impl BenchmarkParameters {
    /// A benchmark of a workload at a constant load for some seconds.
    fn constant(load: u64, secs: u64, workload: WorkloadType) -> (parameters: Self)
        ensures
            parameters.describes(load, secs, workload),
    {
        BenchmarkParameters {
            load_config: LoadConfig::Constant(load),
            load: Some(load),
            duration: Duration::from_secs(secs),
            workload,
            verification_duration: default_fake_verification_duration(),
            expected_stateful_duration: default_fake_verification_duration(),
            assignment_mode: AssignmentMode::Reordering,
        }
    }

    /// Whether these are the parameters of a workload at a constant load for
    /// some seconds, with all else at its default.
    pub open spec fn describes(&self, load: u64, secs: u64, workload: WorkloadType) -> bool {
        &&& self.load_config == LoadConfig::Constant(load)
        &&& self.load == Some(load)
        &&& self.duration.wf()
        &&& self.duration.total_nanos() == secs * 1_000_000_000
        &&& self.workload == workload
        &&& self.verification_duration.wf()
        &&& self.verification_duration.total_nanos() == 2_000_000
        &&& self.expected_stateful_duration.wf()
        &&& self.expected_stateful_duration.total_nanos() == 2_000_000
        &&& self.assignment_mode == AssignmentMode::Reordering
    }

    /// The load that the benchmark starts with.
    pub fn get_initial_load(&self) -> (load: u64)
        ensures
            load == (match self.load {
                Some(load) => load,
                None => self.load_config.first_load(),
            }),
    {
        match self.load {
            Some(load) => load,
            None => self.load_config.initial_load(),
        }
    }

    /// The load configuration in effect: the constant load where one is given.
    pub fn effective_load_config(self) -> (config: LoadConfig)
        ensures
            config == (match self.load {
                Some(load) => LoadConfig::Constant(load),
                None => self.load_config,
            }),
    {
        match self.load {
            Some(load) => LoadConfig::Constant(load),
            None => self.load_config,
        }
    }

    /// The duration in effect: that of a dynamic load, where no constant load
    /// takes precedence over it.
    pub fn effective_duration(&self) -> (duration: Duration)
        ensures
            duration == (match (self.load, self.load_config.own_duration()) {
                (None, Some(duration)) => duration,
                _ => self.duration,
            }),
    {
        match self.load {
            Some(_) => self.duration,
            None => match self.load_config.get_duration() {
                Some(duration) => duration,
                None => self.duration,
            },
        }
    }

    /// The number of transactions of the benchmark.
    pub open spec fn transactions(&self) -> int {
        match self.load {
            Some(load) => load * self.duration.secs,
            None => self.load_config.transactions(self.duration),
        }
    }

    /// Whether the number of transactions can be counted.
    pub open spec fn countable(&self) -> bool {
        match self.load {
            Some(load) => load * self.duration.secs <= u64::MAX,
            None => self.load_config.countable(self.duration),
        }
    }

    /// The number of transactions of the benchmark.
    pub fn calculate_total_transactions(&self) -> (total: u64)
        requires
            self.countable(),
        ensures
            total == self.transactions(),
    {
        match self.load {
            Some(load) => load * self.duration.as_secs(),
            None => self.load_config.calculate_total_transactions(self.duration),
        }
    }

    /// A benchmark for tests.
    pub fn new_for_tests() -> (parameters: Self)
        ensures
            parameters.describes(10, 1, WorkloadType::Transfers),
    {
        Self::constant(10, 1, WorkloadType::Transfers)
    }

    /// A benchmark for tests with contention.
    pub fn new_for_contention_tests() -> (parameters: Self)
        ensures
            parameters.describes(10, 1, (WorkloadType::SharedObjects { txs_per_counter: 2 })),
    {
        Self::constant(
            10,
            1,
            WorkloadType::SharedObjects { txs_per_counter: default_cont_level_for_shared_obj() },
        )
    }

    /// A benchmark for tests with the Ethereum workload.
    pub fn new_for_ethereum_tests() -> (parameters: Self)
        ensures
            parameters.describes(100, 5, WorkloadType::EthereumTransfers),
    {
        Self::constant(100, 5, WorkloadType::EthereumTransfers)
    }

    /// A benchmark for tests with synthetic transactions.
    pub fn new_for_fake_tests() -> (parameters: Self)
        ensures
            parameters.describes(
                10,
                1,
                (WorkloadType::FakeZipfian {
                    execution_duration: (Duration { secs: 0, nanos: 500_000 }),
                    alpha: (Alpha { bits: 0 }),
                    number_of_inputs: 2,
                }),
            ),
    {
        Self::constant(
            10,
            1,
            WorkloadType::FakeZipfian {
                execution_duration: default_fake_execution_duration(),
                alpha: Alpha { bits: 0 },
                number_of_inputs: 2,
            },
        )
    }

    /// A benchmark for tests with synthetic transactions that contend.
    pub fn new_for_fake_contention_tests() -> (parameters: Self)
        ensures
            parameters.describes(
                10,
                1,
                (WorkloadType::FakeZipfian {
                    execution_duration: (Duration { secs: 0, nanos: 500_000 }),
                    alpha: (Alpha { bits: 0x3fe0_0000_0000_0000u64 }),
                    number_of_inputs: 2,
                }),
            ),
    {
        Self::constant(
            10,
            1,
            WorkloadType::FakeZipfian {
                execution_duration: default_fake_execution_duration(),
                alpha: default_zipfian_alpha(),
                number_of_inputs: 2,
            },
        )
    }
}

impl Default for BenchmarkParameters {
    fn default() -> (parameters: Self)
        ensures
            parameters.describes(10_000, 30, WorkloadType::Transfers),
    {
        Self::constant(default_load(), 30, default_workload())
    }
}

/// The load at a moment is that of the first interval that covers it.
pub proof fn law_first_covering_interval_sets_the_load(
    intervals: Seq<LoadInterval>,
    secs: u64,
    i: int,
)
    requires
        0 <= i < intervals.len(),
        intervals[i].start_time_secs <= secs < intervals[i].end_time_secs,
        forall|j: int|
            0 <= j < i ==> !((#[trigger] intervals[j]).start_time_secs <= secs
                < intervals[j].end_time_secs),
    ensures
        load_at(intervals, secs) == Some(intervals[i].target_load),
    decreases intervals.len(),
{
    if i > 0 {
        let rest = intervals.skip(1);
        assert(rest[i - 1] == intervals[i]);
        assert forall|j: int| 0 <= j < i - 1 implies !((#[trigger] rest[j]).start_time_secs <= secs
            < rest[j].end_time_secs) by {
            assert(rest[j] == intervals[j + 1]);
        }
        law_first_covering_interval_sets_the_load(rest, secs, i - 1);
    }
}

/// There is no load at a moment that no interval covers.
pub proof fn law_nothing_is_due_outside_the_intervals(intervals: Seq<LoadInterval>, secs: u64)
    ensures
        (forall|i: int|
            0 <= i < intervals.len() ==> !((#[trigger] intervals[i]).start_time_secs <= secs
                < intervals[i].end_time_secs)) <==> load_at(intervals, secs) is None,
{
    lemma_load_at(intervals, secs);
    if load_at(intervals, secs) is None {
        assert forall|i: int| 0 <= i < intervals.len() implies !((
        #[trigger] intervals[i]).start_time_secs <= secs < intervals[i].end_time_secs) by {
            assert(!intervals[i].covers(secs));
        }
    }
}

/// The sum of the loads at each of the first seconds.
pub open spec fn load_over(intervals: Seq<LoadInterval>, secs: nat) -> int
    decreases secs,
{
    if secs == 0 {
        0
    } else {
        load_over(intervals, (secs - 1) as nat) + match load_at(intervals, (secs - 1) as u64) {
            Some(load) => load as int,
            None => 0,
        }
    }
}

proof fn lemma_load_within(config: DynamicLoadConfig, k: int, secs: u64)
    requires
        config.valid(),
        0 <= k < config.intervals@.len(),
        config.intervals@[k].start_time_secs <= secs < config.intervals@[k].end_time_secs,
    ensures
        load_at(config.intervals@, secs) == Some(config.intervals@[k].target_load),
{
    let intervals = config.intervals@;
    assert forall|j: int| 0 <= j < k implies !((#[trigger] intervals[j]).start_time_secs <= secs
        < intervals[j].end_time_secs) by {
        lemma_ends_increase(intervals, j, k - 1);
        assert(interval_ok(intervals, k));
    }
    law_first_covering_interval_sets_the_load(intervals, secs, k);
}

proof fn lemma_load_over_interval(config: DynamicLoadConfig, k: int, secs: nat)
    requires
        config.valid(),
        0 <= k < config.intervals@.len(),
        config.intervals@[k].start_time_secs <= secs <= config.intervals@[k].end_time_secs,
    ensures
        load_over(config.intervals@, secs) == load_over(
            config.intervals@,
            config.intervals@[k].start_time_secs as nat,
        ) + config.intervals@[k].target_load * (secs - config.intervals@[k].start_time_secs),
    decreases secs,
{
    let interval = config.intervals@[k];
    if secs > interval.start_time_secs {
        let before = (secs - 1) as nat;
        lemma_load_over_interval(config, k, before);
        lemma_load_within(config, k, before as u64);
        assert(interval.target_load * (secs - interval.start_time_secs) == interval.target_load * (
        before - interval.start_time_secs) + interval.target_load) by (nonlinear_arith)
            requires
                secs == before + 1,
        ;
    } else {
        assert(interval.target_load * (secs - interval.start_time_secs) == 0)
            by (nonlinear_arith)
            requires
                secs == interval.start_time_secs,
        ;
    }
}

proof fn lemma_load_over_prefix(config: DynamicLoadConfig, k: int)
    requires
        config.valid(),
        0 <= k < config.intervals@.len(),
    ensures
        load_over(config.intervals@, config.intervals@[k].end_time_secs as nat)
            == total_transactions(config.intervals@.take(k + 1)),
    decreases k,
{
    let intervals = config.intervals@;
    assert(interval_ok(intervals, k));
    assert(intervals.take(k + 1).drop_last() =~= intervals.take(k));
    if k > 0 {
        lemma_load_over_prefix(config, k - 1);
    } else {
        assert(intervals.take(0) =~= Seq::<LoadInterval>::empty());
    }
    assert(intervals.take(k + 1).last() == intervals[k]);
    assert(load_over(intervals, intervals[k].start_time_secs as nat) == total_transactions(
        intervals.take(k),
    ));
    lemma_load_over_interval(config, k, intervals[k].end_time_secs as nat);
}

/// The transactions of a valid dynamic load are as many as its loads at all
/// seconds of the benchmark together.
pub proof fn law_transactions_are_the_load_of_all_seconds(config: DynamicLoadConfig)
    requires
        config.valid(),
    ensures
        total_transactions(config.intervals@) == load_over(
            config.intervals@,
            config.total_duration_secs as nat,
        ),
{
    let intervals = config.intervals@;
    lemma_load_over_prefix(config, intervals.len() - 1);
    assert(intervals.take(intervals.len() as int) =~= intervals);
}

/// A constant load takes its load each second of the duration; a constant
/// load that is set takes precedence over whatever else is configured.
pub proof fn law_constant_loads_take_their_load_each_second(
    parameters: BenchmarkParameters,
    load: u64,
)
    ensures
        LoadConfig::Constant(load).transactions(parameters.duration) == load
            * parameters.duration.secs,
        parameters.load == Some(load) ==> parameters.transactions() == load
            * parameters.duration.secs,
        parameters.load is None ==> parameters.transactions()
            == parameters.load_config.transactions(parameters.duration),
        parameters.load == Some(load) && load * parameters.duration.secs <= u64::MAX
            ==> parameters.countable(),
{
}

/// Every entry of a list of starts becomes one interval, with its load, from
/// its start to the next one; the last interval ends with the benchmark.
pub proof fn law_every_start_has_its_interval(
    list: Seq<(u64, u64)>,
    order: Seq<int>,
    intervals: Seq<LoadInterval>,
    duration_secs: u64,
    k: int,
)
    requires
        is_stable_order(order, list),
        intervals =~= intervals_of(order.map_values(|j: int| list[j]), duration_secs),
        0 <= k < list.len(),
    ensures
        intervals.len() == list.len(),
        exists|i: int|
            0 <= i < intervals.len() && order[i] == k && (
            #[trigger] intervals[i]).start_time_secs == list[k].0 && intervals[i].target_load
                == list[k].1,
        forall|i: int, j: int|
            0 <= i < j < intervals.len() ==> (#[trigger] intervals[i]).start_time_secs <= (
            #[trigger] intervals[j]).start_time_secs,
        forall|i: int, j: int|
            0 <= i && j == i + 1 && j < intervals.len() ==> (
            #[trigger] intervals[i]).end_time_secs == (#[trigger] intervals[j]).start_time_secs,
        intervals.last().end_time_secs == duration_secs,
{
    let n = list.len() as int;
    assert forall|i: int, j: int| 0 <= i < j < n implies order[i] != order[j] by {
        assert(list[order[i]].0 < list[order[j]].0 || (list[order[i]].0 == list[order[j]].0
            && order[i] < order[j]));
    }
    assert(order.no_duplicates());
    order.unique_seq_to_set();
    let all = vstd::set_lib::set_int_range(0, n);
    vstd::set_lib::lemma_int_range(0, n);
    assert(order.to_set().subset_of(all)) by {
        assert forall|x: int| order.to_set().contains(x) implies all.contains(x) by {
            let i = choose|i: int| 0 <= i < order.len() && order[i] == x;
            assert(0 <= order[i] < list.len());
        }
    }
    vstd::set_lib::lemma_subset_equality(order.to_set(), all);
    assert(all.contains(k));
    assert(order.contains(k));
    let i = choose|i: int| 0 <= i < order.len() && order[i] == k;
    assert(intervals[i].start_time_secs == list[k].0);
    assert forall|i: int, j: int| 0 <= i < j < intervals.len() implies (
    #[trigger] intervals[i]).start_time_secs <= (#[trigger] intervals[j]).start_time_secs by {
        assert(list[order[i]].0 <= list[order[j]].0);
    }
}

/// A synthetic workload is one with a duration of its transactions, and its
/// name says that it is synthetic.
pub proof fn law_synthetic_workloads_have_durations(workload: WorkloadType)
    ensures
        workload.fake() <==> workload.fake_duration() is Some,
        workload.fake() <==> workload.label().len() > 4 && workload.label().take(4) =~= seq![
            'F',
            'a',
            'k',
            'e',
        ],
        workload is Tpcc ==> !workload.fake(),
{
    reveal_strlit("transfers");
    reveal_strlit("shared objects");
    reveal_strlit("Solana transactions");
    reveal_strlit("Ethereum transfers");
    reveal_strlit("Ethereum NFT mint");
    reveal_strlit("Uniswap normal");
    reveal_strlit("Uniswap peak");
    reveal_strlit("Zipfian");
    reveal_strlit("Fake owned objects");
    reveal_strlit("Fake shared objects");
    reveal_strlit("Fake Solana transactions");
    reveal_strlit("Fake Ethereum transfers");
    reveal_strlit("Fake Ethereum NFT mint");
    reveal_strlit("Fake Uniswap normal");
    reveal_strlit("Fake Uniswap peak");
    reveal_strlit("Fake Zipfian");
    reveal_strlit("TPC-C");
    if !workload.fake() && workload.label().len() > 4 {
        assert(workload.label().take(4)[0] == workload.label()[0]);
    }
}

/// Checking is apart from executing in three of the four modes, and sent
/// apart by the primary in two of these.
pub proof fn law_separation_modes(mode: SeparationMode)
    ensures
        mode.separates() <==> mode is ProxySeparation || mode is PrimaryPreSeparation
            || mode is PrimaryPostSeparation,
        mode.separates_on_primary() <==> mode.separates() && !(mode is ProxySeparation),
{
}

/// A dynamic load sets the duration and starts with the load of its first
/// interval, a constant one leaves the duration open.
pub proof fn law_dynamic_loads_set_the_duration(config: LoadConfig)
    ensures
        config matches LoadConfig::Constant(load) ==> config.own_duration() is None
            && config.first_load() == load,
        config matches LoadConfig::Dynamic(dynamic) ==> config.own_duration() is Some
            && config.own_duration()->0.total_nanos() == dynamic.total_duration_secs
            * 1_000_000_000,
        config matches LoadConfig::Dynamic(dynamic) ==> dynamic.valid() ==> load_at(
            dynamic.intervals@,
            0,
        ) == Some(config.first_load()),
{
    if let LoadConfig::Dynamic(dynamic) = config {
        if dynamic.valid() {
            assert(interval_ok(dynamic.intervals@, 0));
            law_first_covering_interval_sets_the_load(dynamic.intervals@, 0, 0);
        }
    }
}

/// What is wrong with a dynamic load is said of its first fault: the interval
/// that does not begin where the one before it ends, the one that does not
/// end after it begins, or the end that is not that of the benchmark.
pub proof fn law_complaints_name_the_first_fault(
    config: DynamicLoadConfig,
    text: Seq<char>,
    i: int,
)
    requires
        config.complaint(text),
        config.intervals@.len() > 0,
    ensures
        0 <= i < config.intervals@.len() && (forall|j: int|
            0 <= j < i ==> #[trigger] interval_ok(config.intervals@, j)) && config.intervals@[i].start_time_secs != (if i
            == 0 {
            0
        } else {
            config.intervals@[i - 1].end_time_secs
        }) ==> text =~= "Gap or overlap in intervals: expected start "@ + crate::text::decimal(
            if i == 0 {
                0
            } else {
                config.intervals@[i - 1].end_time_secs as nat
            },
        ) + " but got "@ + crate::text::decimal(config.intervals@[i].start_time_secs as nat),
        0 <= i < config.intervals@.len() && (forall|j: int|
            0 <= j < i ==> #[trigger] interval_ok(config.intervals@, j)) && config.intervals@[i].start_time_secs == (if i
            == 0 {
            0
        } else {
            config.intervals@[i - 1].end_time_secs
        }) && config.intervals@[i].end_time_secs <= config.intervals@[i].start_time_secs ==> text
            =~= "Invalid interval: end time "@ + crate::text::decimal(
            config.intervals@[i].end_time_secs as nat,
        ) + " <= start time "@ + crate::text::decimal(
            config.intervals@[i].start_time_secs as nat,
        ),
        (forall|j: int|
            0 <= j < config.intervals@.len() ==> #[trigger] interval_ok(config.intervals@, j))
            ==> text =~= "Intervals don't cover full duration: "@ + crate::text::decimal(
            config.intervals@[config.intervals@.len() - 1].end_time_secs as nat,
        ) + " vs "@ + crate::text::decimal(config.total_duration_secs as nat),
{
    let intervals = config.intervals@;
    if 0 <= i < intervals.len() && !interval_ok(intervals, i) && (forall|j: int|
        0 <= j < i ==> #[trigger] interval_ok(intervals, j)) {
        assert(first_wrong(intervals, i));
        let k = choose|k: int| first_wrong(intervals, k);
        assert(first_wrong(intervals, k));
        if k < i {
            assert(interval_ok(intervals, k));
        }
        if i < k {
            assert(interval_ok(intervals, i));
        }
    }
}

/// The parameters of a constant load for some seconds: the load and the
/// workload as given, two milliseconds for checking and for executing.
pub proof fn law_constant_parameters_are_as_given(
    parameters: BenchmarkParameters,
    load: u64,
    secs: u64,
    workload: WorkloadType,
)
    requires
        parameters.describes(load, secs, workload),
    ensures
        parameters.load == Some(load),
        parameters.load_config == LoadConfig::Constant(load),
        parameters.duration == (Duration { secs, nanos: 0 }),
        parameters.workload == workload,
        parameters.verification_duration.micros() == 2_000,
        parameters.expected_stateful_duration.micros() == 2_000,
        parameters.assignment_mode == AssignmentMode::Reordering,
        parameters.transactions() == load * secs,
{
}

} // verus!
