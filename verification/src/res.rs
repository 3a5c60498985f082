//! The resolution engine: pluggable resolution capabilities behind a shared
//! `Solver` handle, a sequential engine, a parallel engine, and the
//! dispatcher `resolve` that validates the requested concurrency and routes
//! between them.

use vstd::prelude::*;
use vstd::relations::sorted_by;
use rayon::iter::{IntoParallelRefIterator, ParallelIterator};
use crate::addr::{addr_text, IpAddr};
use crate::ip::{ip_order, sentinel_name, Ip, IpView};
use crate::iplist::IpList;
use crate::ResolveError;

verus! {

broadcast use vstd::seq_lib::group_to_multiset_ensures;

// ---------------------------------------------------------------------------
// Capabilities
// ---------------------------------------------------------------------------

/// The available resolution capabilities.
#[derive(Clone, Copy, Debug, PartialEq, Eq, Structural)]
pub enum ResType {
    /// Always returns a fixed placeholder name; for tests.
    Fake,
    /// Echoes the address's own text as the name.
    Null,
    /// Asks the system resolver; the default.
    Real,
    /// Like `Fake`, but sleeps briefly first; for benchmarking.
    Sleep,
}

impl Default for ResType {
    /// The default capability is the live one.
    fn default() -> (r: Self)
        ensures
            r == ResType::Real,
    {
        ResType::Real
    }
}

/// Does this capability compute its names from the address alone?  Only the
/// live capability depends on the outside world.
pub open spec fn deterministic(k: ResType) -> bool {
    k != ResType::Real
}

/// The name a deterministic capability derives for an address.  (For the
/// live capability the name depends on the network; this function is not
/// meaningful there and no contract applies it.)
pub open spec fn solve_name(k: ResType, a: IpAddr) -> Seq<char> {
    match k {
        ResType::Null => addr_text(a),
        ResType::Fake => sentinel_name(),
        ResType::Sleep => sentinel_name(),
        ResType::Real => Seq::empty(),
    }
}

/// A resolution capability: resolves one record to the same address with a
/// derived name.  Implementations must be safe to call concurrently, which
/// here means they hold no mutable state at all.
pub trait Resolver {
    /// Does this capability compute its names from the address alone?
    spec fn is_deterministic(&self) -> bool;

    /// The name this capability derives for an address (meaningful only
    /// when the capability is deterministic).
    spec fn resolved_name(&self, a: IpAddr) -> Seq<char>;

    /// Resolves one record: the address is always kept.
    fn solve(&self, ip: &Ip) -> (r: Ip)
        ensures
            r.ip == ip.ip,
            self.is_deterministic() ==> r.name@ == self.resolved_name(ip.ip);
}

/// The null capability: the name is the address's own text.
pub struct NullResolver;

impl NullResolver {
    /// Returns one instance.
    pub(crate) fn init() -> Self {
        NullResolver {}
    }
}

impl Resolver for NullResolver {
    open spec fn is_deterministic(&self) -> bool {
        true
    }

    open spec fn resolved_name(&self, a: IpAddr) -> Seq<char> {
        addr_text(a)
    }

    fn solve(&self, ip: &Ip) -> (r: Ip) {
        Ip { ip: ip.ip, name: ip.ip.to_string() }
    }
}

/// The fake capability: a fixed placeholder name, for tests.
pub struct FakeResolver();

impl FakeResolver {
    /// Returns one instance.
    pub(crate) fn init() -> Self {
        FakeResolver()
    }
}

impl Resolver for FakeResolver {
    open spec fn is_deterministic(&self) -> bool {
        true
    }

    open spec fn resolved_name(&self, a: IpAddr) -> Seq<char> {
        sentinel_name()
    }

    fn solve(&self, ip: &Ip) -> (r: Ip) {
        Ip { ip: ip.ip, name: String::from_str("some.host.invalid") }
    }
}

/// Relies on `async_std::task::{block_on, sleep}`: suspends the calling
/// thread for about a millisecond, to simulate lookup latency.
#[verifier::external_body]
fn sleep_briefly() {
    async_std::task::block_on(async_std::task::sleep(core::time::Duration::from_millis(1)));
}

/// The latent capability: like `Fake`, but sleeps briefly first.
pub struct SleepResolver();

impl SleepResolver {
    /// Returns one instance.
    pub(crate) fn init() -> Self {
        SleepResolver()
    }
}

impl Resolver for SleepResolver {
    open spec fn is_deterministic(&self) -> bool {
        true
    }

    open spec fn resolved_name(&self, a: IpAddr) -> Seq<char> {
        sentinel_name()
    }

    fn solve(&self, ip: &Ip) -> (r: Ip) {
        sleep_briefly();
        Ip { ip: ip.ip, name: String::from_str("some.host.invalid") }
    }
}

/// The live capability: asks the system resolver, keeping the address and
/// turning every failure into a placeholder name (see `Ip::solve`).
pub struct RealResolver;

impl RealResolver {
    /// Returns one instance.
    pub(crate) fn init() -> Self {
        RealResolver {}
    }
}

impl Resolver for RealResolver {
    open spec fn is_deterministic(&self) -> bool {
        false
    }

    open spec fn resolved_name(&self, a: IpAddr) -> Seq<char> {
        Seq::empty()
    }

    fn solve(&self, ip: &Ip) -> (r: Ip) {
        ip.solve()
    }
}

// ---------------------------------------------------------------------------
// The shared solver handle
// ---------------------------------------------------------------------------

/// A cheaply copyable handle to one chosen resolution capability, shared by
/// every concurrent worker.
#[derive(Clone, Copy, Debug)]
pub struct Solver {
    /// The chosen capability.
    pub kind: ResType,
}

impl Solver {
    /// Resolves one record with the chosen capability.  The address is
    /// always kept; a deterministic capability pins the name down exactly.
    pub fn solve(&self, ip: &Ip) -> (r: Ip)
        ensures
            r.ip == ip.ip,
            deterministic(self.kind) ==> r.name@ == solve_name(self.kind, ip.ip),
    {
        match self.kind {
            ResType::Null => NullResolver::init().solve(ip),
            ResType::Fake => FakeResolver::init().solve(ip),
            ResType::Real => RealResolver::init().solve(ip),
            ResType::Sleep => SleepResolver::init().solve(ip),
        }
    }
}

/// Creates the solver handle for a named capability.
pub fn res_init(t: ResType) -> (s: Solver)
    ensures
        s.kind == t,
{
    Solver { kind: t }
}

// ---------------------------------------------------------------------------
// Engine contract
// ---------------------------------------------------------------------------

/// `m` is an elementwise resolution of `l`: same length, the same address
/// at every index, and — for a deterministic capability — exactly the
/// derived name at every index.
pub open spec fn pointwise_solved(l: Seq<IpView>, m: Seq<IpView>, k: ResType) -> bool {
    &&& m.len() == l.len()
    &&& forall|i: int| 0 <= i < l.len() ==> (#[trigger] m[i]).ip == l[i].ip
    &&& deterministic(k) ==> forall|i: int| 0 <= i < l.len() ==> (#[trigger] m[i]).name
        == solve_name(k, l[i].ip)
}

/// The elementwise resolution of `l` under a deterministic capability.
pub open spec fn solved_views(l: Seq<IpView>, k: ResType) -> Seq<IpView> {
    l.map_values(|v: IpView| IpView { ip: v.ip, name: solve_name(k, v.ip) })
}

/// What every engine returns for a deterministic capability: the
/// elementwise resolution, in canonical sorted order.
pub open spec fn canonical_solved(l: Seq<IpView>, k: ResType) -> Seq<IpView> {
    solved_views(l, k).sort_by(ip_order())
}

/// The engines' common postcondition: the result is the canonical sort of
/// some elementwise resolution of the input.  Length is therefore always
/// preserved, and a deterministic capability determines the result exactly.
pub open spec fn engine_post(l: Seq<IpView>, k: ResType, r: Seq<IpView>) -> bool {
    &&& r.len() == l.len()
    &&& sorted_by(r, ip_order())
    &&& exists|m: Seq<IpView>| pointwise_solved(l, m, k) && r == #[trigger] m.sort_by(ip_order())
    &&& deterministic(k) ==> r == canonical_solved(l, k)
}

/// A sequence already in canonical order is its own canonical sort.
proof fn lemma_sort_by_id(s: Seq<IpView>)
    requires
        sorted_by(s, ip_order()),
    ensures
        s.sort_by(ip_order()) == s,
{
    crate::ip::lemma_ip_order_total();
    s.lemma_sort_by_ensures(ip_order());
    crate::iplist::lemma_sorted_unique(s, s.sort_by(ip_order()), ip_order());
}

/// Sorting a sequence keeps its length.
proof fn lemma_sort_by_len(s: Seq<IpView>)
    ensures
        s.sort_by(ip_order()).len() == s.len(),
        sorted_by(s.sort_by(ip_order()), ip_order()),
{
    crate::ip::lemma_ip_order_total();
    s.lemma_sort_by_ensures(ip_order());
    s.to_multiset_ensures();
    s.sort_by(ip_order()).to_multiset_ensures();
}

// ---------------------------------------------------------------------------
// Sequential engine
// ---------------------------------------------------------------------------

/// The sequential engine: resolves the records one by one, in order, then
/// sorts the result canonically.  The input list is not touched.
pub fn simple_solve(ipl: &IpList, res: &Solver) -> (r: IpList)
    ensures
        engine_post(ipl@, res.kind, r@),
{
    let mut out = IpList::new();
    let mut i: usize = 0;
    while i < ipl.len()
        invariant
            i <= ipl@.len(),
            out@.len() == i,
            forall|k: int| 0 <= k < i ==> (#[trigger] out@[k]).ip == ipl@[k].ip,
            deterministic(res.kind) ==> forall|k: int| 0 <= k < i ==> (#[trigger] out@[k]).name
                == solve_name(res.kind, ipl@[k].ip),
        decreases ipl@.len() - i,
    {
        out.push(res.solve(ipl.get(i)));
        i = i + 1;
    }
    let ghost pre = out@;
    out.sort();
    proof {
        lemma_engine_post_from_pre(ipl@, res.kind, pre, out@);
    }
    out
}

/// From an elementwise resolution `pre` and its canonical sort `r`, the
/// engines' common postcondition follows.
pub(crate) proof fn lemma_engine_post_from_pre(l: Seq<IpView>, k: ResType, pre: Seq<IpView>, r: Seq<IpView>)
    requires
        pointwise_solved(l, pre, k),
        r == pre.sort_by(ip_order()),
    ensures
        engine_post(l, k, r),
{
    lemma_sort_by_len(pre);
    if deterministic(k) {
        assert(pre =~= solved_views(l, k)) by {
            assert forall|i: int| 0 <= i < l.len() implies pre[i] == solved_views(l, k)[i] by {
                assert(pre[i] =~= solved_views(l, k)[i]);
            }
        }
    }
}

// ---------------------------------------------------------------------------
// Parallel engine
// ---------------------------------------------------------------------------

/// Relies on rayon's `par_iter().map().collect()`, run on a pool of
/// `njobs` threads: the closure runs once per element, and collecting into
/// a `Vec` keeps index order, so the result is elementwise `res.solve` of
/// the input whichever thread resolved each record (should the pool fail
/// to start, the records are resolved on the calling thread instead).
/// The clauses stated here are the postconditions of the verified
/// `Solver::solve`, carried over elementwise.
#[verifier::external_body]
fn par_solve_vec(list: &IpList, njobs: usize, res: &Solver) -> (r: Vec<Ip>)
    ensures
        r@.len() == list@.len(),
        forall|i: int| 0 <= i < list@.len() ==> (#[trigger] r@[i])@.ip == list@[i].ip,
        deterministic(res.kind) ==> forall|i: int| 0 <= i < list@.len() ==> (#[trigger] r@[i])@.name
            == solve_name(res.kind, list@[i].ip),
{
    match rayon::ThreadPoolBuilder::new().num_threads(njobs).build() {
        Ok(pool) => pool.install(|| list.0.par_iter().map(|ip| res.solve(ip)).collect()),
        Err(_) => list.0.iter().map(|ip| res.solve(ip)).collect(),
    }
}

/// The parallel engine: fans the records out over a worker pool, fans the
/// results back in, and sorts canonically.  Concurrency is safe because a
/// capability holds no mutable state; an empty input short-circuits to an
/// empty result without starting the pool.  `njobs` is the requested worker
/// count; the pool bounds the actual fan-out.
pub fn parallel_solve(ipl: &IpList, njobs: usize, res: &Solver) -> (r: IpList)
    requires
        1 <= njobs,
    ensures
        engine_post(ipl@, res.kind, r@),
{
    if ipl.is_empty() {
        let r = IpList::new();
        proof {
            assert(sorted_by(r@, ip_order()));
            lemma_sort_by_id(r@);
            lemma_engine_post_from_pre(ipl@, res.kind, r@, r@);
        }
        return r;
    }
    let solved = par_solve_vec(ipl, njobs, res);
    let mut out = IpList(solved);
    let ghost pre = out@;
    out.sort();
    proof {
        lemma_engine_post_from_pre(ipl@, res.kind, pre, out@);
    }
    out
}

// ---------------------------------------------------------------------------
// Dispatcher
// ---------------------------------------------------------------------------

/// Relies on `num_cpus::get`: the number of logical cores of this machine,
/// documented to be at least 1.
#[verifier::external_body]
fn logical_cores() -> (n: usize)
    ensures
        1 <= n,
{
    num_cpus::get()
}

/// The dispatcher, with the thread limit passed in explicitly so that the
/// admission check is fully specified: an empty input is rejected, a job
/// count above `max_threads` is rejected before any work begins, and
/// otherwise the batch is resolved by the sequential engine (one job) or
/// the parallel engine (more than one job).
pub fn resolve_with_limit(ipl: &IpList, njobs: usize, max_threads: usize, res: &Solver) -> (r:
    Result<IpList, ResolveError>)
    requires
        1 <= njobs,
        1 <= max_threads,
    ensures
        r is Err <==> (ipl@.len() == 0 || njobs > max_threads),
        ipl@.len() == 0 ==> r == Err::<IpList, ResolveError>(ResolveError::EmptyInput),
        ipl@.len() > 0 && njobs > max_threads ==> r == Err::<IpList, ResolveError>(
            ResolveError::TooManyJobs,
        ),
        r matches Ok(out) ==> engine_post(ipl@, res.kind, out@),
{
    if ipl.is_empty() {
        return Err(ResolveError::EmptyInput);
    }
    if njobs > max_threads {
        return Err(ResolveError::TooManyJobs);
    }
    if ipl.len() == 1 {
        // One record: resolve it inline; the result is its own canonical
        // sort, so the observable contract is unchanged.
        let one = res.solve(ipl.get(0));
        let r = IpList::from_ip(one);
        proof {
            assert(pointwise_solved(ipl@, r@, res.kind));
            assert(sorted_by(r@, ip_order()));
            lemma_sort_by_id(r@);
            lemma_engine_post_from_pre(ipl@, res.kind, r@, r@);
        }
        return Ok(r);
    }
    if njobs == 1 {
        Ok(simple_solve(ipl, res))
    } else {
        Ok(parallel_solve(ipl, njobs, res))
    }
}

/// The entry point: validates the requested concurrency against this
/// machine's logical core count and resolves the batch.  The core count is
/// machine-dependent, so the oversubscription bound itself is stated on
/// `resolve_with_limit`, which this function calls with that count; one job
/// is always admitted.
pub fn resolve(ipl: &IpList, njobs: usize, res: &Solver) -> (r: Result<IpList, ResolveError>)
    requires
        1 <= njobs,
    ensures
        ipl@.len() == 0 <==> r == Err::<IpList, ResolveError>(ResolveError::EmptyInput),
        r is Err ==> r == Err::<IpList, ResolveError>(ResolveError::EmptyInput) || r == Err::<
            IpList,
            ResolveError,
        >(ResolveError::TooManyJobs),
        ipl@.len() > 0 && njobs == 1 ==> r is Ok,
        r == Err::<IpList, ResolveError>(ResolveError::TooManyJobs) ==> njobs > 1,
        r matches Ok(out) ==> engine_post(ipl@, res.kind, out@),
{
    let max_threads = logical_cores();
    resolve_with_limit(ipl, njobs, max_threads, res)
}

// ---------------------------------------------------------------------------
// Bare lookup front-ends
// ---------------------------------------------------------------------------

/// A lookup front-end that asks the system resolver directly.
pub struct RealSolver {}

impl RealSolver {
    /// The raw reverse lookup for one address: the host name, or the
    /// error's text.  The outcome depends on the network; `Ip::solve` is
    /// the engine route, which never fails.
    pub fn lookup_addr(ip: &IpAddr) -> Result<String, String> {
        crate::ip::raw_lookup(ip)
    }
}

/// A lookup front-end that answers every query with a fixed name; for
/// tests.
pub struct DumbSolver {}

impl DumbSolver {
    /// Always answers with the fixed name `dumb.host.name`.
    pub fn lookup_addr(ip: &IpAddr) -> (r: Result<String, String>)
        ensures
            r matches Ok(n) && n@ == "dumb.host.name"@,
    {
        let _ = ip;
        Ok(String::from_str("dumb.host.name"))
    }
}

} // verus!
