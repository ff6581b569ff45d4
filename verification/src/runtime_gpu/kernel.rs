//! Kernel manager: runtime selection of the kernel backend.

use vstd::prelude::*;

verus! {

/// Available kernel backends.
#[derive(Debug, Clone, Copy, PartialEq, Eq, Structural)]
pub enum KernelBackend {
    /// Native device kernels.
    Cuda,
    /// Compiler-generated tiled kernels.
    Triton,
    /// Ahead-of-time compiled kernels.
    Tvm,
    /// Portable CPU fallback.
    Cpu,
}

/// Kernel selection criteria.
#[derive(Debug, Clone, PartialEq, Eq)]
pub struct KernelCriteria {
    /// Operation name.
    pub op_type: String,
    /// Shapes of the operation inputs.
    pub input_shapes: Vec<Vec<usize>>,
    /// Element type name.
    pub dtype: String,
    /// Backends the operation has implementations for.
    pub available_backends: Vec<KernelBackend>,
}

/// The mathematical view of selection criteria.
pub struct CriteriaView {
    /// Operation name.
    pub op_type: Seq<char>,
    /// Shapes of the operation inputs.
    pub input_shapes: Seq<Seq<usize>>,
    /// Element type name.
    pub dtype: Seq<char>,
    /// Backends the operation has implementations for.
    pub available_backends: Seq<KernelBackend>,
}

impl View for KernelCriteria {
    type V = CriteriaView;

    open spec fn view(&self) -> CriteriaView {
        CriteriaView {
            op_type: self.op_type@,
            input_shapes: self.input_shapes@.map(|i: int, v: Vec<usize>| v@),
            dtype: self.dtype@,
            available_backends: self.available_backends@,
        }
    }
}

/// Whether a backend list holds the given backend.
pub open spec fn spec_has_backend(backends: Seq<KernelBackend>, b: KernelBackend) -> bool {
    exists|i: int| 0 <= i < backends.len() && backends[i] == b
}

/// Whether a backend list holds the given backend.
fn has_backend(backends: &Vec<KernelBackend>, b: KernelBackend) -> (r: bool)
    ensures
        r == spec_has_backend(backends@, b),
{
    let n = backends.len();
    let mut i: usize = 0;
    while i < n
        invariant
            n == backends@.len(),
            i <= n,
            forall|k: int| 0 <= k < i ==> backends@[k] != b,
        decreases n - i,
    {
        if backends[i] == b {
            return true;
        }
        i = i + 1;
    }
    false
}

/// The backend chosen for criteria given the manager's backends: the
/// first of the fixed priority order present on both sides, or the CPU
/// fallback.
pub open spec fn spec_choose(own: Seq<KernelBackend>, wanted: Seq<KernelBackend>) -> KernelBackend {
    if spec_has_backend(own, KernelBackend::Cuda) && spec_has_backend(
        wanted,
        KernelBackend::Cuda,
    ) {
        KernelBackend::Cuda
    } else if spec_has_backend(own, KernelBackend::Triton) && spec_has_backend(
        wanted,
        KernelBackend::Triton,
    ) {
        KernelBackend::Triton
    } else if spec_has_backend(own, KernelBackend::Tvm) && spec_has_backend(
        wanted,
        KernelBackend::Tvm,
    ) {
        KernelBackend::Tvm
    } else if spec_has_backend(own, KernelBackend::Cpu) && spec_has_backend(
        wanted,
        KernelBackend::Cpu,
    ) {
        KernelBackend::Cpu
    } else {
        KernelBackend::Cpu
    }
}

/// Kernel manager for runtime backend selection.
pub struct KernelManager {
    available_backends: Vec<KernelBackend>,
    benchmark_cache: Vec<(KernelCriteria, KernelBackend)>,
}

impl KernelManager {
    /// The backends the manager believes the host offers.
    pub closed spec fn spec_backends(&self) -> Seq<KernelBackend> {
        self.available_backends@
    }

    /// The cached benchmark verdicts.
    pub closed spec fn spec_cache(&self) -> Seq<(KernelCriteria, KernelBackend)> {
        self.benchmark_cache@
    }

    /// A manager knowing only the always-present CPU fallback; backend
    /// discovery belongs to the surrounding runtime.
    pub fn new() -> (m: KernelManager)
        ensures
            m.spec_backends() == seq![KernelBackend::Cpu],
            m.spec_cache() == Seq::<(KernelCriteria, KernelBackend)>::empty(),
    {
        let mut backends: Vec<KernelBackend> = Vec::new();
        backends.push(KernelBackend::Cpu);
        proof {
            assert(backends@ =~= seq![KernelBackend::Cpu]);
        }
        KernelManager { available_backends: backends, benchmark_cache: Vec::new() }
    }

    /// A manager for a host with the given backends.
    pub fn with_backends(backends: Vec<KernelBackend>) -> (m: KernelManager)
        ensures
            m.spec_backends() == backends@,
            m.spec_cache() == Seq::<(KernelCriteria, KernelBackend)>::empty(),
    {
        KernelManager { available_backends: backends, benchmark_cache: Vec::new() }
    }

    /// Select the backend for an operation: a cached verdict for the same
    /// criteria wins; otherwise the first backend in the priority order
    /// present both on the host and in the criteria, with the CPU as the
    /// last resort.
    pub fn select(&self, criteria: &KernelCriteria) -> (r: KernelBackend)
        ensures
            r == match spec_cache_lookup(self.spec_cache(), criteria@) {
                Some(b) => b,
                None => spec_choose(self.spec_backends(), criteria@.available_backends),
            },
    {
        let n = self.benchmark_cache.len();
        let mut i: usize = 0;
        proof {
            assert(self.spec_cache().subrange(0, 0) =~= Seq::<(
                KernelCriteria,
                KernelBackend,
            )>::empty());
        }
        while i < n
            invariant
                n == self.spec_cache().len(),
                i <= n,
                spec_cache_lookup(self.spec_cache().subrange(0, i as int), criteria@) is None,
            decreases n - i,
        {
            proof {
                let pre = self.spec_cache().subrange(0, i as int);
                let post = self.spec_cache().subrange(0, i + 1 as int);
                assert(post.drop_last() =~= pre);
                assert(post.last() == self.spec_cache()[i as int]);
            }
            if criteria_eq(&self.benchmark_cache[i].0, criteria) {
                proof {
                    lemma_cache_lookup_found(self.spec_cache(), criteria@, i as int);
                }
                return self.benchmark_cache[i].1;
            }
            i = i + 1;
        }
        proof {
            assert(self.spec_cache().subrange(0, n as int) =~= self.spec_cache());
        }
        let own = &self.available_backends;
        let wanted = &criteria.available_backends;
        if has_backend(own, KernelBackend::Cuda) && has_backend(wanted, KernelBackend::Cuda) {
            KernelBackend::Cuda
        } else if has_backend(own, KernelBackend::Triton) && has_backend(
            wanted,
            KernelBackend::Triton,
        ) {
            KernelBackend::Triton
        } else if has_backend(own, KernelBackend::Tvm) && has_backend(wanted, KernelBackend::Tvm) {
            KernelBackend::Tvm
        } else if has_backend(own, KernelBackend::Cpu) && has_backend(wanted, KernelBackend::Cpu) {
            KernelBackend::Cpu
        } else {
            KernelBackend::Cpu
        }
    }
}

/// The first cached verdict whose criteria equal the given ones.
pub open spec fn spec_cache_lookup(
    cache: Seq<(KernelCriteria, KernelBackend)>,
    c: CriteriaView,
) -> Option<KernelBackend>
    decreases cache.len(),
{
    if cache.len() == 0 {
        None
    } else {
        match spec_cache_lookup(cache.drop_last(), c) {
            Some(b) => Some(b),
            None => if spec_criteria_eq(cache.last().0@, c) {
                Some(cache.last().1)
            } else {
                None
            },
        }
    }
}

/// When the prefix before `i` holds no match and entry `i` matches, the
/// lookup over any extension of that prefix through `i` yields entry `i`.
proof fn lemma_cache_lookup_found(
    cache: Seq<(KernelCriteria, KernelBackend)>,
    c: CriteriaView,
    i: int,
)
    requires
        0 <= i < cache.len(),
        spec_cache_lookup(cache.subrange(0, i), c) is None,
        spec_criteria_eq(cache[i].0@, c),
    ensures
        spec_cache_lookup(cache, c) == Some(cache[i].1),
    decreases cache.len(),
{
    if cache.len() - 1 > i {
        assert(cache.drop_last().subrange(0, i) =~= cache.subrange(0, i));
        assert(cache.drop_last()[i] == cache[i]);
        lemma_cache_lookup_found(cache.drop_last(), c, i);
    } else {
        assert(cache.drop_last() =~= cache.subrange(0, i));
    }
}

/// Criteria equality, over the views.
pub open spec fn spec_criteria_eq(a: CriteriaView, b: CriteriaView) -> bool {
    &&& a.op_type == b.op_type
    &&& a.input_shapes == b.input_shapes
    &&& a.dtype == b.dtype
    &&& a.available_backends == b.available_backends
}

/// Compare two criteria field by field.
fn criteria_eq(a: &KernelCriteria, b: &KernelCriteria) -> (r: bool)
    ensures
        r == spec_criteria_eq(a@, b@),
{
    if !a.op_type.eq(&b.op_type) {
        return false;
    }
    if !a.dtype.eq(&b.dtype) {
        return false;
    }
    if !shapes_eq(&a.input_shapes, &b.input_shapes) {
        return false;
    }
    if !backends_eq(&a.available_backends, &b.available_backends) {
        return false;
    }
    true
}

/// Compare two shape lists element by element.
fn shapes_eq(a: &Vec<Vec<usize>>, b: &Vec<Vec<usize>>) -> (r: bool)
    ensures
        r == (a@.map(|i: int, v: Vec<usize>| v@) == b@.map(|i: int, v: Vec<usize>| v@)),
{
    let ghost av = a@.map(|i: int, v: Vec<usize>| v@);
    let ghost bv = b@.map(|i: int, v: Vec<usize>| v@);
    if a.len() != b.len() {
        proof {
            assert(av.len() != bv.len());
        }
        return false;
    }
    let n = a.len();
    let mut i: usize = 0;
    while i < n
        invariant
            n == a@.len(),
            n == b@.len(),
            i <= n,
            av == a@.map(|i: int, v: Vec<usize>| v@),
            bv == b@.map(|i: int, v: Vec<usize>| v@),
            forall|k: int| 0 <= k < i ==> av[k] == bv[k],
        decreases n - i,
    {
        if !shape_eq(&a[i], &b[i]) {
            proof {
                assert(av[i as int] == a@[i as int]@);
                assert(bv[i as int] == b@[i as int]@);
                assert(av != bv);
            }
            return false;
        }
        proof {
            assert(av[i as int] == a@[i as int]@);
            assert(bv[i as int] == b@[i as int]@);
        }
        i = i + 1;
    }
    proof {
        assert(av =~= bv);
    }
    true
}

/// Compare two shapes element by element.
fn shape_eq(a: &Vec<usize>, b: &Vec<usize>) -> (r: bool)
    ensures
        r == (a@ == b@),
{
    if a.len() != b.len() {
        proof {
            assert(a@.len() != b@.len());
        }
        return false;
    }
    let n = a.len();
    let mut i: usize = 0;
    while i < n
        invariant
            n == a@.len(),
            n == b@.len(),
            i <= n,
            forall|k: int| 0 <= k < i ==> a@[k] == b@[k],
        decreases n - i,
    {
        if a[i] != b[i] {
            return false;
        }
        i = i + 1;
    }
    proof {
        assert(a@ =~= b@);
    }
    true
}

/// Compare two backend lists element by element.
fn backends_eq(a: &Vec<KernelBackend>, b: &Vec<KernelBackend>) -> (r: bool)
    ensures
        r == (a@ == b@),
{
    if a.len() != b.len() {
        proof {
            assert(a@.len() != b@.len());
        }
        return false;
    }
    let n = a.len();
    let mut i: usize = 0;
    while i < n
        invariant
            n == a@.len(),
            n == b@.len(),
            i <= n,
            forall|k: int| 0 <= k < i ==> a@[k] == b@[k],
        decreases n - i,
    {
        if a[i] != b[i] {
            return false;
        }
        i = i + 1;
    }
    proof {
        assert(a@ =~= b@);
    }
    true
}

} // verus!
