use vstd::prelude::*;
use vstd::std_specs::iter::IteratorSpec;
use aleo_std::Cpu;

verus! {

/// A pool of jobs, each giving a `T`, to be run together. Jobs are closures of one type `F`.
#[verifier::reject_recursive_types(T)]
pub struct ExecutionPool<T, F: FnOnce() -> T> {
    jobs: Vec<F>,
    result: std::marker::PhantomData<T>,
}

impl<T, F: FnOnce() -> T> View for ExecutionPool<T, F> {
    type V = Seq<F>;

    closed spec fn view(&self) -> Seq<F> {
        self.jobs@
    }
}

impl<T, F: FnOnce() -> T> ExecutionPool<T, F> {
    /// An empty pool.
    pub fn new() -> (r: Self)
        ensures r@ == Seq::<F>::empty(),
    {
        Self { jobs: Vec::new(), result: std::marker::PhantomData }
    }

    /// An empty pool with room for `cap` jobs.
    pub fn with_capacity(cap: usize) -> (r: Self)
        ensures r@ == Seq::<F>::empty(),
    {
        Self { jobs: Vec::with_capacity(cap), result: std::marker::PhantomData }
    }

    /// Adds a job at the end of the pool.
    pub fn add_job(&mut self, f: F)
        ensures final(self)@ == old(self)@.push(f),
    {
        self.jobs.push(f);
    }

    /// Hands out the jobs, in the order they were added.
    pub fn into_jobs(self) -> (r: Vec<F>)
        ensures
            r@ == self@,
    {
        self.jobs
    }

    /// Runs every job (on the calling thread, in order) and returns their results in the order
    /// the jobs were added.
    pub fn execute_all(self) -> (r: Vec<T>)
        requires forall|i: int| 0 <= i < self@.len() ==> call_requires(#[trigger] self@[i], ()),
        ensures
            r@.len() == self@.len(),
            forall|i: int| 0 <= i < self@.len() ==> call_ensures(#[trigger] self@[i], (), r@[i]),
    {
        let ghost jobs = self@;
        let mut out: Vec<T> = Vec::new();
        for f in it: self.jobs
            invariant
                it.seq() == jobs,
                forall|i: int| 0 <= i < jobs.len() ==> call_requires(#[trigger] jobs[i], ()),
                out@.len() == it.index(),
                forall|i: int| 0 <= i < it.index() ==> call_ensures(#[trigger] jobs[i], (), out@[i]),
        {
            out.push(f());
        }
        out
    }
}

impl<T, F: FnOnce() -> T> Default for ExecutionPool<T, F> {
    fn default() -> (r: Self)
        ensures
            r@ == Seq::<F>::empty(),
    {
        Self::new()
    }
}

/// Runs `f` to completion (on the calling thread) and returns its result.
pub fn execute_with_max_available_threads<T, F: FnOnce() -> T>(f: F) -> (r: T)
    requires
        call_requires(f, ()),
    ensures
        call_ensures(f, (), r),
{
    f()
}

/// Creates an iterator over the elements of the collection, in order.
pub fn cfg_iter<T>(collection: Vec<T>) -> (r: std::vec::IntoIter<T>)
    ensures
        r.remaining() == collection@,
{
    collection.into_iter()
}

/// Creates an iterator over references to the elements of the collection, in order, leaving
/// the collection in place.
pub fn cfg_iter_ref<'a, T>(collection: &'a [T]) -> (r: std::slice::Iter<'a, T>)
    ensures
        r.remaining() == collection@.as_ref(),
{
    broadcast use vstd::std_specs::slice::axiom_spec_slice_iter;

    collection.iter()
}

/// The vendor of the processor, as far as the thread count cares.
#[derive(Debug, Clone, Copy, PartialEq, Eq, Structural)]
pub enum CpuVendor {
    AMD,
    Intel,
    Unknown,
}

/// Calls `aleo_std::get_cpu` and names its vendor. Nothing is stated of the result: it
/// depends on the machine.
#[verifier::external_body]
fn cpu_vendor() -> CpuVendor {
    match aleo_std::get_cpu() {
        Cpu::AMD => CpuVendor::AMD,
        Cpu::Intel => CpuVendor::Intel,
        Cpu::Unknown => CpuVendor::Unknown,
    }
}

/// Calls `rayon::current_num_threads`. Trusted: the pool has at least one thread; how many
/// depends on the machine and on the pool the caller runs in.
#[verifier::external_body]
fn rayon_threads() -> (r: usize)
    ensures
        r >= 1,
{
    rayon::current_num_threads()
}

/// Calls `num_cpus::get_physical`. Trusted: at least one, as its documentation promises; how
/// many depends on the machine.
#[verifier::external_body]
fn physical_cpus() -> (r: usize)
    ensures
        r >= 1,
{
    num_cpus::get_physical()
}

/// The number of threads a parallel job may use: on Intel processors the physical cores, but
/// never more than rayon's threads; on others rayon's threads.
pub open spec fn thread_count(vendor: CpuVendor, physical_cpus: usize, rayon_threads: usize) -> usize {
    match vendor {
        CpuVendor::Intel => if physical_cpus < rayon_threads {
            physical_cpus
        } else {
            rayon_threads
        },
        _ => rayon_threads,
    }
}

/// Returns the number of threads a parallel job may use on a machine with the given vendor,
/// physical cores and rayon threads.
pub fn threads_for(vendor: CpuVendor, physical_cpus: usize, rayon_threads: usize) -> (r: usize)
    ensures
        r == thread_count(vendor, physical_cpus, rayon_threads),
{
    match vendor {
        CpuVendor::Intel => if physical_cpus < rayon_threads {
            physical_cpus
        } else {
            rayon_threads
        },
        CpuVendor::AMD | CpuVendor::Unknown => rayon_threads,
    }
}

/// Returns the number of threads a parallel job may use on this machine: the thread count
/// for this machine's vendor, physical cores and rayon threads; at least one.
pub fn max_available_threads() -> (r: usize)
    ensures
        r >= 1,
        exists|vendor: CpuVendor, physical: usize, threads: usize|
            #![trigger thread_count(vendor, physical, threads)]
            physical >= 1 && threads >= 1 && r == thread_count(vendor, physical, threads),
{
    let threads = rayon_threads();
    let vendor = cpu_vendor();
    let physical = if vendor == CpuVendor::Intel {
        physical_cpus()
    } else {
        1
    };
    threads_for(vendor, physical, threads)
}

} // verus!
