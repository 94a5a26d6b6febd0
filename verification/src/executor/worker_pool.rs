//! The distribution of tasks over a pool of workers, and of workers over the
//! cores of the machine.
use vstd::prelude::*;

use crate::config::DEFAULT_CHANNEL_SIZE;

verus! {

/// How a pool of workers is set up.
#[derive(Clone, Copy, Debug, PartialEq, Eq)]
pub struct WorkerPoolConfig {
    /// The number of workers; where none is given, one per core.
    pub num_workers: Option<usize>,
    /// How many tasks may wait for a worker.
    pub buffer_size: usize,
    /// Whether each worker stays on one core.
    pub enable_core_affinity: bool,
    /// The core of the first worker; where none is given, the next one that
    /// no other pool uses.
    pub core_offset: Option<usize>,
}

impl Default for WorkerPoolConfig {
    fn default() -> (config: Self)
        ensures
            config == (WorkerPoolConfig {
                num_workers: None,
                buffer_size: DEFAULT_CHANNEL_SIZE,
                enable_core_affinity: true,
                core_offset: None,
            }),
    {
        WorkerPoolConfig {
            num_workers: None,
            buffer_size: DEFAULT_CHANNEL_SIZE,
            enable_core_affinity: true,
            core_offset: None,
        }
    }
}

/// The number of workers where the machine does not tell its cores.
pub const DEFAULT_WORKERS: usize = 4;

/// The order in which workers get tasks.
#[derive(Clone, Copy, Debug, PartialEq, Eq, Structural)]
pub struct WorkerPool {
    /// The number of workers.
    pub workers: usize,
    /// The worker that gets the next task.
    pub next_worker: usize,
    /// The core of the first worker.
    pub core_offset: usize,
}

/// The number of workers of a pool on a machine with some cores.
pub open spec fn workers_for(config: WorkerPoolConfig, cores: Option<usize>) -> usize {
    match config.num_workers {
        Some(count) => count,
        None => match cores {
            Some(count) => count,
            None => DEFAULT_WORKERS,
        },
    }
}

/// Whether a pool gets its cores one after the other with the other pools.
pub open spec fn takes_next_cores(config: WorkerPoolConfig) -> bool {
    config.enable_core_affinity && config.core_offset is None
}

impl WorkerPool {
    /// The next worker is one of the pool.
    pub open spec fn wf(self) -> bool {
        self.next_worker < self.workers || self.next_worker == 0
    }

    /// A pool on a machine with some cores. Pools that are not given cores
    /// take the next ones, so that no two share a core as long as there are
    /// enough.
    pub fn new(
        config: &WorkerPoolConfig,
        cores: Option<usize>,
        next_core_offset: &mut usize,
    ) -> (pool: Self)
        ensures
            pool.wf(),
            pool.workers == workers_for(*config, cores),
            pool.next_worker == 0,
            pool.core_offset == (if takes_next_cores(*config) {
                *old(next_core_offset)
            } else {
                match config.core_offset {
                    Some(offset) => offset,
                    None => 0,
                }
            }),
            *final(next_core_offset) == (if takes_next_cores(*config) {
                (*old(next_core_offset)).wrapping_add(pool.workers)
            } else {
                *old(next_core_offset)
            }),
    {
        let workers: usize = match config.num_workers {
            Some(count) => count,
            None => match cores {
                Some(count) => count,
                None => DEFAULT_WORKERS,
            },
        };
        let core_offset: usize = if config.enable_core_affinity && config.core_offset.is_none() {
            let offset: usize = *next_core_offset;
            *next_core_offset = offset.wrapping_add(workers);
            offset
        } else {
            match config.core_offset {
                Some(offset) => offset,
                None => 0,
            }
        };
        WorkerPool { workers, next_worker: 0, core_offset }
    }

    /// The position among the cores on which a worker stays; `None` where the
    /// machine has none to offer.
    pub fn core_index(&self, worker: usize, cores: usize) -> (index: Option<usize>)
        requires
            worker + self.core_offset <= usize::MAX,
        ensures
            match index {
                Some(core) => cores > 0 && core == (worker + self.core_offset) % (cores as int),
                None => cores == 0,
            },
            index matches Some(core) ==> core < cores && (worker + self.core_offset < cores ==> core
                == worker + self.core_offset),
    {
        if cores == 0 {
            None
        } else {
            proof {
                if worker + self.core_offset < cores {
                    vstd::arithmetic::div_mod::lemma_small_mod(
                        (worker + self.core_offset) as nat,
                        cores as nat,
                    );
                }
            }
            Some((worker + self.core_offset) % cores)
        }
    }

    /// The worker that gets the next task: each in turn.
    pub fn send_task(&mut self) -> (worker: usize)
        requires
            old(self).wf(),
            old(self).workers > 0,
        ensures
            final(self).wf(),
            worker == old(self).next_worker,
            worker < old(self).workers,
            *final(self) == (WorkerPool {
                next_worker: ((old(self).next_worker + 1) % (old(self).workers as int)) as usize,
                ..*old(self)
            }),
            final(self).next_worker == (if worker + 1 < old(self).workers {
                worker + 1
            } else {
                0
            }),
    {
        let worker: usize = self.next_worker;
        proof {
            if worker + 1 < self.workers {
                vstd::arithmetic::div_mod::lemma_small_mod((worker + 1) as nat, self.workers as nat);
            } else {
                vstd::arithmetic::div_mod::lemma_mod_self_0(self.workers as int);
            }
        }
        self.next_worker = (self.next_worker + 1) % self.workers;
        worker
    }

    /// The number of workers.
    pub fn worker_count(&self) -> (count: usize)
        ensures
            count == self.workers,
    {
        self.workers
    }
}

} // verus!
