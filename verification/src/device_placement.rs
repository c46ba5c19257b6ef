//! Device specification and per-layer residency planning: which transformer
//! blocks live on a GPU and which stay in CPU memory.
use vstd::prelude::*;

use candle_core::Device;

use crate::text::{append_str, chars_to_string, nat_to_decimal, push_decimal, str_to_chars};

verus! {

#[verifier::external_type_specification]
#[verifier::external_body]
pub struct ExDevice(candle_core::Device);

/// The CPU device of the tensor backend (`candle_core::Device::Cpu`). The
/// value is opaque here: nothing is stated about it.
#[verifier::external_body]
fn cpu_device() -> Device {
    Device::Cpu
}

/// The message returned when a CUDA device is requested from a build
/// without CUDA support.
pub open spec fn cuda_unavailable_message() -> Seq<char> {
    "CUDA support not compiled (enable the 'cuda' feature)"@
}

/// Describes a compute device.
#[derive(Debug, Clone, PartialEq, Eq, Structural, Hash)]
pub enum DeviceSpec {
    /// CPU (always available).
    Cpu,
    /// CUDA GPU by ordinal (0 = first GPU).
    Cuda { ordinal: usize },
}

/// The display text of a device: `cpu` or `cuda:<ordinal>`.
pub open spec fn device_text(d: DeviceSpec) -> Seq<char> {
    match d {
        DeviceSpec::Cpu => "cpu"@,
        DeviceSpec::Cuda { ordinal } => "cuda:"@ + nat_to_decimal(ordinal as nat),
    }
}

impl DeviceSpec {
    /// Create a backend device from this specification.
    ///
    /// This build has no CUDA support, so only the CPU can be created; a
    /// CUDA request returns the explanatory error message.
    pub fn to_device(&self) -> (r: Result<Device, String>)
        ensures
            r is Ok <==> *self is Cpu,
            r matches Err(m) ==> m@ == cuda_unavailable_message(),
    {
        match self {
            DeviceSpec::Cpu => Ok(cpu_device()),
            DeviceSpec::Cuda { ordinal: _ } => Err(
                chars_to_string(
                    &str_to_chars("CUDA support not compiled (enable the 'cuda' feature)"),
                ),
            ),
        }
    }

    /// Default: CPU.
    pub fn default_cpu() -> (d: DeviceSpec)
        ensures
            d == DeviceSpec::Cpu,
    {
        DeviceSpec::Cpu
    }

    /// Default: CUDA device 0.
    pub fn default_cuda() -> (d: DeviceSpec)
        ensures
            d == (DeviceSpec::Cuda { ordinal: 0 }),
    {
        DeviceSpec::Cuda { ordinal: 0 }
    }

    /// The display text `cpu` or `cuda:<ordinal>`.
    pub fn to_string(&self) -> (s: String)
        ensures
            s@ == device_text(*self),
    {
        let mut v: Vec<char> = Vec::new();
        match self {
            DeviceSpec::Cpu => append_str(&mut v, "cpu"),
            DeviceSpec::Cuda { ordinal } => {
                append_str(&mut v, "cuda:");
                push_decimal(&mut v, *ordinal as u128);
            },
        }
        chars_to_string(&v)
    }
}

/// The residency (device placement) of a single transformer block.
#[derive(Debug, Clone, Copy, PartialEq, Eq, Structural)]
pub enum LayerResidency {
    /// Block is kept on the CPU.
    Cpu,
    /// Block is kept on a CUDA GPU.
    Gpu { ordinal: usize },
}

/// The device specification that a residency names.
pub open spec fn residency_device(r: LayerResidency) -> DeviceSpec {
    match r {
        LayerResidency::Cpu => DeviceSpec::Cpu,
        LayerResidency::Gpu { ordinal } => DeviceSpec::Cuda { ordinal },
    }
}

impl LayerResidency {
    /// The residency of a layer kept on `target`: the CPU for the CPU, the
    /// same GPU for a CUDA device.
    pub fn residency_for(target: DeviceSpec) -> (r: LayerResidency)
        ensures
            residency_device(r) == target,
    {
        match target {
            DeviceSpec::Cpu => LayerResidency::Cpu,
            DeviceSpec::Cuda { ordinal } => LayerResidency::Gpu { ordinal },
        }
    }

    /// Convert to a `DeviceSpec`.
    pub fn device_spec(&self) -> (d: DeviceSpec)
        ensures
            d == residency_device(*self),
    {
        match self {
            LayerResidency::Cpu => DeviceSpec::Cpu,
            LayerResidency::Gpu { ordinal } => DeviceSpec::Cuda { ordinal: *ordinal },
        }
    }

    /// Convert to a backend device (see [`DeviceSpec::to_device`]).
    pub fn to_device(&self) -> (r: Result<Device, String>)
        ensures
            r is Ok <==> *self is Cpu,
            r matches Err(m) ==> m@ == cuda_unavailable_message(),
    {
        self.device_spec().to_device()
    }
}

/// The number of GPU-resident entries among the first `n` of `s`.
pub open spec fn gpu_count_upto(s: Seq<LayerResidency>, n: nat) -> nat
    decreases n,
{
    if n == 0 {
        0
    } else {
        gpu_count_upto(s, (n - 1) as nat) + if s[n - 1] is Gpu {
            1nat
        } else {
            0nat
        }
    }
}

/// A mapping from 0-based block index to device residency, plus the
/// default device for tensors that are not blocks (embeddings, head).
#[derive(Debug, Clone)]
pub struct ResidencyPlan {
    layers: Vec<LayerResidency>,
    default_device: DeviceSpec,
}

impl ResidencyPlan {
    /// Per-block residency, indexed by 0-based block id.
    pub closed spec fn layers_view(&self) -> Seq<LayerResidency> {
        self.layers@
    }

    /// The default device.
    pub closed spec fn default_view(&self) -> DeviceSpec {
        self.default_device
    }

    /// All-CPU plan (no GPU offloading).
    pub fn all_cpu(num_layers: usize) -> (p: ResidencyPlan)
        ensures
            p.layers_view() == Seq::new(num_layers as nat, |i: int| LayerResidency::Cpu),
            p.default_view() == DeviceSpec::Cpu,
    {
        ResidencyPlan { layers: filled(num_layers, LayerResidency::Cpu), default_device: DeviceSpec::Cpu }
    }

    /// All-GPU plan (entire model on one GPU).
    pub fn all_gpu(num_layers: usize, ordinal: usize) -> (p: ResidencyPlan)
        ensures
            p.layers_view() == Seq::new(num_layers as nat, |i: int| LayerResidency::Gpu { ordinal }),
            p.default_view() == (DeviceSpec::Cuda { ordinal }),
    {
        ResidencyPlan {
            layers: filled(num_layers, LayerResidency::Gpu { ordinal }),
            default_device: DeviceSpec::Cuda { ordinal },
        }
    }

    /// Static split: the first `gpu_layers` blocks on the GPU, the rest on
    /// the CPU. The default device is the GPU whenever `gpu_layers` is
    /// positive.
    pub fn static_split(num_layers: usize, gpu_layers: usize, ordinal: usize) -> (p: ResidencyPlan)
        ensures
            p.layers_view() == Seq::new(
                num_layers as nat,
                |i: int|
                    if i < gpu_layers {
                        LayerResidency::Gpu { ordinal }
                    } else {
                        LayerResidency::Cpu
                    },
            ),
            p.default_view() == (if gpu_layers > 0 {
                DeviceSpec::Cuda { ordinal }
            } else {
                DeviceSpec::Cpu
            }),
    {
        let ghost target = Seq::new(
            num_layers as nat,
            |i: int|
                if i < gpu_layers {
                    LayerResidency::Gpu { ordinal }
                } else {
                    LayerResidency::Cpu
                },
        );
        let mut layers: Vec<LayerResidency> = Vec::new();
        for i in 0..num_layers
            invariant
                layers@ == target.take(i as int),
                target == Seq::new(
                    num_layers as nat,
                    |i: int|
                        if i < gpu_layers {
                            LayerResidency::Gpu { ordinal }
                        } else {
                            LayerResidency::Cpu
                        },
                ),
        {
            assert(target[i as int] == (if i < gpu_layers {
                LayerResidency::Gpu { ordinal }
            } else {
                LayerResidency::Cpu
            }));
            if i < gpu_layers {
                layers.push(LayerResidency::Gpu { ordinal });
            } else {
                layers.push(LayerResidency::Cpu);
            }
            assert(target.take(i + 1) == target.take(i as int).push(target[i as int]));
        }
        assert(target.take(num_layers as int) == target);
        ResidencyPlan {
            layers,
            default_device: if gpu_layers > 0 {
                DeviceSpec::Cuda { ordinal }
            } else {
                DeviceSpec::Cpu
            },
        }
    }

    /// Residency for a specific block.
    pub fn residency(&self, block_idx: usize) -> (r: &LayerResidency)
        requires
            block_idx < self.layers_view().len(),
        ensures
            *r == self.layers_view()[block_idx as int],
    {
        &self.layers[block_idx]
    }

    /// Backend device for a specific block (see [`DeviceSpec::to_device`]).
    pub fn device(&self, block_idx: usize) -> (r: Result<Device, String>)
        requires
            block_idx < self.layers_view().len(),
        ensures
            r is Ok <==> self.layers_view()[block_idx as int] is Cpu,
            r matches Err(m) ==> m@ == cuda_unavailable_message(),
    {
        self.layers[block_idx].to_device()
    }

    /// The default device (for non-block tensors such as embeddings).
    pub fn default_device(&self) -> (d: &DeviceSpec)
        ensures
            *d == self.default_view(),
    {
        &self.default_device
    }

    /// Number of blocks in the plan.
    pub fn num_layers(&self) -> (n: usize)
        ensures
            n == self.layers_view().len(),
    {
        self.layers.len()
    }

    /// Number of GPU-resident blocks.
    pub fn gpu_count(&self) -> (n: usize)
        ensures
            n == gpu_count_upto(self.layers_view(), self.layers_view().len()),
            n <= self.layers_view().len(),
    {
        let mut c: usize = 0;
        let len = self.layers.len();
        for i in 0..len
            invariant
                len == self.layers@.len(),
                c == gpu_count_upto(self.layers@, i as nat),
                c <= i,
        {
            if let LayerResidency::Gpu { .. } = self.layers[i] {
                c = c + 1;
            }
        }
        c
    }

    /// Number of CPU-resident blocks.
    pub fn cpu_count(&self) -> (n: usize)
        ensures
            n == self.layers_view().len() - gpu_count_upto(self.layers_view(), self.layers_view().len()),
    {
        self.layers.len() - self.gpu_count()
    }

    /// Replace a specific block's residency.
    pub fn set_residency(&mut self, block_idx: usize, residency: LayerResidency)
        requires
            block_idx < old(self).layers_view().len(),
        ensures
            final(self).layers_view() == old(self).layers_view().update(block_idx as int, residency),
            final(self).default_view() == old(self).default_view(),
    {
        self.layers.set(block_idx, residency);
    }
}

/// A vector of `n` copies of `r`.
fn filled(n: usize, r: LayerResidency) -> (v: Vec<LayerResidency>)
    ensures
        v@ == Seq::new(n as nat, |i: int| r),
{
    let mut v: Vec<LayerResidency> = Vec::new();
    for i in 0..n
        invariant
            v@ == Seq::new(i as nat, |j: int| r),
    {
        v.push(r);
        assert(v@ == Seq::new((i + 1) as nat, |j: int| r));
    }
    v
}

/// In a static split the number of GPU blocks is `min(gpu_layers, num_layers)`.
pub proof fn lemma_static_split_gpu_count(num_layers: nat, gpu_layers: nat, ordinal: usize)
    ensures
        ({
            let s = Seq::new(
                num_layers,
                |i: int|
                    if i < gpu_layers {
                        LayerResidency::Gpu { ordinal }
                    } else {
                        LayerResidency::Cpu
                    },
            );
            gpu_count_upto(s, num_layers) == if gpu_layers < num_layers {
                gpu_layers
            } else {
                num_layers
            }
        }),
{
    let s = Seq::new(
        num_layers,
        |i: int|
            if i < gpu_layers {
                LayerResidency::Gpu { ordinal }
            } else {
                LayerResidency::Cpu
            },
    );
    lemma_split_count_prefix(s, num_layers, gpu_layers, ordinal);
}

proof fn lemma_split_count_prefix(s: Seq<LayerResidency>, n: nat, g: nat, ordinal: usize)
    requires
        n <= s.len(),
        forall|i: int|
            0 <= i < s.len() ==> #[trigger] s[i] == (if i < g {
                LayerResidency::Gpu { ordinal }
            } else {
                LayerResidency::Cpu
            }),
    ensures
        gpu_count_upto(s, n) == if g < n {
            g
        } else {
            n
        },
    decreases n,
{
    if n > 0 {
        lemma_split_count_prefix(s, (n - 1) as nat, g, ordinal);
        assert(s[n - 1] == (if n - 1 < g {
            LayerResidency::Gpu { ordinal }
        } else {
            LayerResidency::Cpu
        }));
    }
}

/// Replacing one block's residency changes the GPU count by at most one, in
/// the direction of the change.
pub proof fn lemma_set_residency_count(s: Seq<LayerResidency>, idx: int, r: LayerResidency)
    requires
        0 <= idx < s.len(),
    ensures
        gpu_count_upto(s.update(idx, r), s.len()) + (if s[idx] is Gpu {
            1int
        } else {
            0int
        }) == gpu_count_upto(s, s.len()) + (if r is Gpu {
            1int
        } else {
            0int
        }),
{
    lemma_update_count(s, idx, r, s.len());
}

proof fn lemma_update_count(s: Seq<LayerResidency>, idx: int, r: LayerResidency, n: nat)
    requires
        0 <= idx < s.len(),
        n <= s.len(),
    ensures
        gpu_count_upto(s.update(idx, r), n) + (if idx < n && s[idx] is Gpu {
            1int
        } else {
            0int
        }) == gpu_count_upto(s, n) + (if idx < n && r is Gpu {
            1int
        } else {
            0int
        }),
    decreases n,
{
    if n > 0 {
        lemma_update_count(s, idx, r, (n - 1) as nat);
    }
}

} // verus!
