//! The catalogue of models the node can offer, which runtimes each suits,
//! and the per-runtime selections drawn from it. Sizes are carried as the
//! bit patterns of their `f32` gigabyte figures.

use vstd::prelude::*;
use crate::runtime_select::{ModelSpeed, QualityTier, Runtime};

verus! {

/// A model and where it fits.
#[derive(Clone, Debug)]
pub struct ModelInfo {
    pub name: String,
    pub parameters: String,
    /// Bits of the download size in GB (`f32::to_bits`).
    pub size_gb_bits: u32,
    /// Bits of the memory needed to run it, in GB (`f32::to_bits`).
    pub memory_required_gb_bits: u32,
    pub recommended_runtimes: Vec<Runtime>,
    pub inference_speed: ModelSpeed,
    pub quality_tier: QualityTier,
    pub use_cases: Vec<String>,
}

/// Abstract value of a model: strings as character sequences.
#[verifier::ext_equal]
pub struct ModelView {
    pub name: Seq<char>,
    pub parameters: Seq<char>,
    pub size_gb_bits: u32,
    pub memory_required_gb_bits: u32,
    pub runtimes: Seq<Runtime>,
    pub speed: ModelSpeed,
    pub tier: QualityTier,
    pub use_cases: Seq<Seq<char>>,
}

impl View for ModelInfo {
    type V = ModelView;

    open spec fn view(&self) -> ModelView {
        ModelView {
            name: self.name@,
            parameters: self.parameters@,
            size_gb_bits: self.size_gb_bits,
            memory_required_gb_bits: self.memory_required_gb_bits,
            runtimes: self.recommended_runtimes@,
            speed: self.inference_speed,
            tier: self.quality_tier,
            use_cases: self.use_cases@.map_values(|s: String| s@),
        }
    }
}

/// Views of a list of models.
pub open spec fn views(s: Seq<ModelInfo>) -> Seq<ModelView> {
    s.map_values(|m: ModelInfo| m@)
}

/// The catalogue, in order.
pub open spec fn model_table() -> Seq<ModelView> {
    seq![
        ModelView {
            name: "orca-mini"@,
            parameters: "3B"@,
            size_gb_bits: 0x3fd9999a,
            memory_required_gb_bits: 0x40000000,
            runtimes: seq![Runtime::CPU, Runtime::NPU, Runtime::DirectML],
            speed: ModelSpeed::Fast,
            tier: QualityTier::Lightweight,
            use_cases: seq!["Quick responses"@, "Edge devices"@, "Real-time chat"@],
        },
        ModelView {
            name: "phi"@,
            parameters: "3B"@,
            size_gb_bits: 0x40000000,
            memory_required_gb_bits: 0x40400000,
            runtimes: seq![Runtime::CPU, Runtime::NPU, Runtime::DirectML],
            speed: ModelSpeed::Fast,
            tier: QualityTier::Lightweight,
            use_cases: seq!["Mobile deployment"@, "Embedded systems"@, "Low-latency"@],
        },
        ModelView {
            name: "mistral"@,
            parameters: "7B"@,
            size_gb_bits: 0x40833333,
            memory_required_gb_bits: 0x40c00000,
            runtimes: seq![Runtime::CPU, Runtime::NPU, Runtime::DirectML, Runtime::CUDA, Runtime::Metal, Runtime::ROCm],
            speed: ModelSpeed::Standard,
            tier: QualityTier::Standard,
            use_cases: seq!["General purpose"@, "Default choice"@, "Balanced quality/speed"@],
        },
        ModelView {
            name: "neural-chat"@,
            parameters: "7B"@,
            size_gb_bits: 0x40800000,
            memory_required_gb_bits: 0x40c00000,
            runtimes: seq![Runtime::CPU, Runtime::DirectML, Runtime::CUDA, Runtime::Metal],
            speed: ModelSpeed::Standard,
            tier: QualityTier::Standard,
            use_cases: seq!["Conversational AI"@, "Chat applications"@, "Instruction following"@],
        },
        ModelView {
            name: "llama2"@,
            parameters: "7B"@,
            size_gb_bits: 0x40733333,
            memory_required_gb_bits: 0x40b00000,
            runtimes: seq![Runtime::CPU, Runtime::DirectML, Runtime::CUDA, Runtime::Metal, Runtime::ROCm],
            speed: ModelSpeed::Standard,
            tier: QualityTier::Standard,
            use_cases: seq!["Text generation"@, "Code generation"@, "Versatile tasks"@],
        },
        ModelView {
            name: "openhermes"@,
            parameters: "7B"@,
            size_gb_bits: 0x40833333,
            memory_required_gb_bits: 0x40c00000,
            runtimes: seq![Runtime::CPU, Runtime::DirectML, Runtime::CUDA, Runtime::Metal],
            speed: ModelSpeed::Standard,
            tier: QualityTier::Standard,
            use_cases: seq!["Instruction following"@, "Question answering"@, "Reasoning tasks"@],
        },
        ModelView {
            name: "llama2-13b"@,
            parameters: "13B"@,
            size_gb_bits: 0x40e9999a,
            memory_required_gb_bits: 0x41200000,
            runtimes: seq![Runtime::DirectML, Runtime::CUDA, Runtime::Metal, Runtime::ROCm],
            speed: ModelSpeed::Standard,
            tier: QualityTier::Premium,
            use_cases: seq!["Complex reasoning"@, "Advanced reasoning"@, "Long context"@],
        },
        ModelView {
            name: "mistral-medium"@,
            parameters: "13B"@,
            size_gb_bits: 0x41000000,
            memory_required_gb_bits: 0x41400000,
            runtimes: seq![Runtime::DirectML, Runtime::CUDA, Runtime::Metal, Runtime::ROCm],
            speed: ModelSpeed::Slow,
            tier: QualityTier::Premium,
            use_cases: seq!["High quality responses"@, "Complex analysis"@, "Multi-step reasoning"@],
        },
        ModelView {
            name: "llama2-70b"@,
            parameters: "70B"@,
            size_gb_bits: 0x421c0000,
            memory_required_gb_bits: 0x42400000,
            runtimes: seq![Runtime::DirectML, Runtime::CUDA, Runtime::ROCm],
            speed: ModelSpeed::Slow,
            tier: QualityTier::Premium,
            use_cases: seq!["Expert-level reasoning"@, "Complex code"@, "Research applications"@],
        },
        ModelView {
            name: "codeup"@,
            parameters: "13B"@,
            size_gb_bits: 0x40f00000,
            memory_required_gb_bits: 0x41200000,
            runtimes: seq![Runtime::DirectML, Runtime::CUDA, Runtime::Metal],
            speed: ModelSpeed::Slow,
            tier: QualityTier::Specialized,
            use_cases: seq!["Code generation"@, "Code completion"@, "Programming assistance"@],
        },
        ModelView {
            name: "dolphin-mixtral"@,
            parameters: "8x7B"@,
            size_gb_bits: 0x41d00000,
            memory_required_gb_bits: 0x42000000,
            runtimes: seq![Runtime::DirectML, Runtime::CUDA, Runtime::ROCm],
            speed: ModelSpeed::Slow,
            tier: QualityTier::Specialized,
            use_cases: seq!["Advanced conversations"@, "High complexity tasks"@, "Multi-task handling"@],
        },
    ]
}

/// Owned copies of string slices.
fn owned_strings(items: &[&str]) -> (v: Vec<String>)
    ensures
        v@.map_values(|s: String| s@) == items@.map_values(|s: &str| s@),
{
    let mut v: Vec<String> = Vec::new();
    let mut i: usize = 0;
    while i < items.len()
        invariant
            i <= items@.len(),
            v@.len() == i,
            forall|k: int| 0 <= k < i ==> (#[trigger] v@[k])@ == items@[k]@,
        decreases items@.len() - i,
    {
        let s = items[i].to_owned();
        v.push(s);
        i += 1;
    }
    proof {
        assert(v@.map_values(|s: String| s@) =~= items@.map_values(|s: &str| s@));
    }
    v
}

/// One catalogue entry.
fn model(
    name: &str,
    parameters: &str,
    size_gb_bits: u32,
    memory_required_gb_bits: u32,
    runtimes: &[Runtime],
    speed: ModelSpeed,
    tier: QualityTier,
    use_cases: &[&str],
) -> (m: ModelInfo)
    ensures
        m@ == (ModelView {
            name: name@,
            parameters: parameters@,
            size_gb_bits,
            memory_required_gb_bits,
            runtimes: runtimes@,
            speed,
            tier,
            use_cases: use_cases@.map_values(|s: &str| s@),
        }),
{
    let mut rts: Vec<Runtime> = Vec::new();
    let mut i: usize = 0;
    while i < runtimes.len()
        invariant
            i <= runtimes@.len(),
            rts@ == runtimes@.subrange(0, i as int),
        decreases runtimes@.len() - i,
    {
        rts.push(runtimes[i]);
        i += 1;
        proof {
            assert(rts@ =~= runtimes@.subrange(0, i as int));
        }
    }
    proof {
        assert(runtimes@.subrange(0, runtimes@.len() as int) =~= runtimes@);
    }
    ModelInfo {
        name: name.to_owned(),
        parameters: parameters.to_owned(),
        size_gb_bits,
        memory_required_gb_bits,
        recommended_runtimes: rts,
        inference_speed: speed,
        quality_tier: tier,
        use_cases: owned_strings(use_cases),
    }
}

/// Model registry with runtime-specific availability.
pub struct ModelRegistry;

impl ModelRegistry {
    /// Every model in the catalogue.
    #[verifier::rlimit(50)]
    pub fn all_models() -> (v: Vec<ModelInfo>)
        ensures
            views(v@) == model_table(),
    {
        let mut v: Vec<ModelInfo> = Vec::new();
    v.push(model(
        "orca-mini",
        "3B",
        0x3fd9999a,
        0x40000000,
        &[Runtime::CPU, Runtime::NPU, Runtime::DirectML],
        ModelSpeed::Fast,
        QualityTier::Lightweight,
        &["Quick responses", "Edge devices", "Real-time chat"],
    ));
    v.push(model(
        "phi",
        "3B",
        0x40000000,
        0x40400000,
        &[Runtime::CPU, Runtime::NPU, Runtime::DirectML],
        ModelSpeed::Fast,
        QualityTier::Lightweight,
        &["Mobile deployment", "Embedded systems", "Low-latency"],
    ));
    v.push(model(
        "mistral",
        "7B",
        0x40833333,
        0x40c00000,
        &[Runtime::CPU, Runtime::NPU, Runtime::DirectML, Runtime::CUDA, Runtime::Metal, Runtime::ROCm],
        ModelSpeed::Standard,
        QualityTier::Standard,
        &["General purpose", "Default choice", "Balanced quality/speed"],
    ));
    v.push(model(
        "neural-chat",
        "7B",
        0x40800000,
        0x40c00000,
        &[Runtime::CPU, Runtime::DirectML, Runtime::CUDA, Runtime::Metal],
        ModelSpeed::Standard,
        QualityTier::Standard,
        &["Conversational AI", "Chat applications", "Instruction following"],
    ));
    v.push(model(
        "llama2",
        "7B",
        0x40733333,
        0x40b00000,
        &[Runtime::CPU, Runtime::DirectML, Runtime::CUDA, Runtime::Metal, Runtime::ROCm],
        ModelSpeed::Standard,
        QualityTier::Standard,
        &["Text generation", "Code generation", "Versatile tasks"],
    ));
    v.push(model(
        "openhermes",
        "7B",
        0x40833333,
        0x40c00000,
        &[Runtime::CPU, Runtime::DirectML, Runtime::CUDA, Runtime::Metal],
        ModelSpeed::Standard,
        QualityTier::Standard,
        &["Instruction following", "Question answering", "Reasoning tasks"],
    ));
    v.push(model(
        "llama2-13b",
        "13B",
        0x40e9999a,
        0x41200000,
        &[Runtime::DirectML, Runtime::CUDA, Runtime::Metal, Runtime::ROCm],
        ModelSpeed::Standard,
        QualityTier::Premium,
        &["Complex reasoning", "Advanced reasoning", "Long context"],
    ));
    v.push(model(
        "mistral-medium",
        "13B",
        0x41000000,
        0x41400000,
        &[Runtime::DirectML, Runtime::CUDA, Runtime::Metal, Runtime::ROCm],
        ModelSpeed::Slow,
        QualityTier::Premium,
        &["High quality responses", "Complex analysis", "Multi-step reasoning"],
    ));
    v.push(model(
        "llama2-70b",
        "70B",
        0x421c0000,
        0x42400000,
        &[Runtime::DirectML, Runtime::CUDA, Runtime::ROCm],
        ModelSpeed::Slow,
        QualityTier::Premium,
        &["Expert-level reasoning", "Complex code", "Research applications"],
    ));
    v.push(model(
        "codeup",
        "13B",
        0x40f00000,
        0x41200000,
        &[Runtime::DirectML, Runtime::CUDA, Runtime::Metal],
        ModelSpeed::Slow,
        QualityTier::Specialized,
        &["Code generation", "Code completion", "Programming assistance"],
    ));
    v.push(model(
        "dolphin-mixtral",
        "8x7B",
        0x41d00000,
        0x42000000,
        &[Runtime::DirectML, Runtime::CUDA, Runtime::ROCm],
        ModelSpeed::Slow,
        QualityTier::Specialized,
        &["Advanced conversations", "High complexity tasks", "Multi-task handling"],
    ));
        proof {
            let t = model_table();
            assert(views(v@)[0] =~~= t[0]);
            assert(views(v@)[1] =~~= t[1]);
            assert(views(v@)[2] =~~= t[2]);
            assert(views(v@)[3] =~~= t[3]);
            assert(views(v@)[4] =~~= t[4]);
            assert(views(v@)[5] =~~= t[5]);
            assert(views(v@)[6] =~~= t[6]);
            assert(views(v@)[7] =~~= t[7]);
            assert(views(v@)[8] =~~= t[8]);
            assert(views(v@)[9] =~~= t[9]);
            assert(views(v@)[10] =~~= t[10]);
            assert(views(v@) =~= t);
        }
        v
    }
}

/// The model suits `runtime`.
pub open spec fn suits(runtime: Runtime) -> spec_fn(ModelView) -> bool {
    |m: ModelView| m.runtimes.contains(runtime)
}

/// `a <= b` on the `f32` values whose bit patterns are `a` and `b`, as
/// IEEE 754 orders them: false when either is NaN, the two zeros equal,
/// negatives below positives, and within one sign ordered by magnitude.
pub open spec fn f32_bits_le(a: u32, b: u32) -> bool {
    let mag_a = a % 0x8000_0000;
    let mag_b = b % 0x8000_0000;
    let neg_a = a >= 0x8000_0000;
    let neg_b = b >= 0x8000_0000;
    if mag_a > 0x7f80_0000 || mag_b > 0x7f80_0000 {
        false
    } else if mag_a == 0 && mag_b == 0 {
        true
    } else if !neg_a && !neg_b {
        mag_a <= mag_b
    } else if neg_a && neg_b {
        mag_b <= mag_a
    } else {
        neg_a
    }
}

/// Compare two `f32` values given by their bit patterns with `<=`.
pub fn f32_bits_le_exec(a: u32, b: u32) -> (r: bool)
    ensures
        r == f32_bits_le(a, b),
{
    let mag_a = a % 0x8000_0000;
    let mag_b = b % 0x8000_0000;
    let neg_a = a >= 0x8000_0000;
    let neg_b = b >= 0x8000_0000;
    if mag_a > 0x7f80_0000 || mag_b > 0x7f80_0000 {
        false
    } else if mag_a == 0 && mag_b == 0 {
        true
    } else if !neg_a && !neg_b {
        mag_a <= mag_b
    } else if neg_a && neg_b {
        mag_b <= mag_a
    } else {
        neg_a
    }
}

/// `a < b` on the `f32` values whose bit patterns are `a` and `b`; false
/// when either is NaN.
pub open spec fn f32_bits_lt(a: u32, b: u32) -> bool {
    f32_bits_le(a, b) && !f32_bits_le(b, a)
}

/// Compare two `f32` values given by their bit patterns with `<`.
pub fn f32_bits_lt_exec(a: u32, b: u32) -> (r: bool)
    ensures
        r == f32_bits_lt(a, b),
{
    f32_bits_le_exec(a, b) && !f32_bits_le_exec(b, a)
}

/// The model needs at most `available_bits` (an `f32` bit pattern) GB.
pub open spec fn fits_memory(available_bits: u32) -> spec_fn(ModelView) -> bool {
    |m: ModelView| f32_bits_le(m.memory_required_gb_bits, available_bits)
}

/// The first model of tier `t` in `s`, if any.
pub open spec fn first_of_tier(s: Seq<ModelView>, t: QualityTier) -> Option<ModelView>
    decreases s.len(),
{
    if s.len() == 0 {
        None
    } else if s[0].tier == t {
        Some(s[0])
    } else {
        first_of_tier(s.drop_first(), t)
    }
}

/// The preferred model among `s`: the first standard-tier one, else the
/// first premium one, else the first lightweight one.
pub open spec fn best_of(s: Seq<ModelView>) -> Option<ModelView> {
    match first_of_tier(s, QualityTier::Standard) {
        Some(m) => Some(m),
        None => match first_of_tier(s, QualityTier::Premium) {
            Some(m) => Some(m),
            None => first_of_tier(s, QualityTier::Lightweight),
        },
    }
}

proof fn lemma_first_of_tier_at(s: Seq<ModelView>, t: QualityTier, i: int)
    requires
        0 <= i < s.len(),
        s[i].tier == t,
        forall|j: int| 0 <= j < i ==> s[j].tier != t,
    ensures
        first_of_tier(s, t) == Some(s[i]),
    decreases s.len(),
{
    if i > 0 {
        assert forall|j: int| 0 <= j < i - 1 implies s.drop_first()[j].tier != t by {
            assert(s.drop_first()[j] == s[j + 1]);
        }
        lemma_first_of_tier_at(s.drop_first(), t, i - 1);
    }
}

proof fn lemma_first_of_tier_none(s: Seq<ModelView>, t: QualityTier)
    requires
        forall|j: int| 0 <= j < s.len() ==> s[j].tier != t,
    ensures
        first_of_tier(s, t) is None,
    decreases s.len(),
{
    if s.len() > 0 {
        assert forall|j: int| 0 <= j < s.len() - 1 implies s.drop_first()[j].tier != t by {
            assert(s.drop_first()[j] == s[j + 1]);
        }
        lemma_first_of_tier_none(s.drop_first(), t);
    }
}

/// The model suits `runtime` and, when a memory budget is given, fits it.
pub open spec fn wanted(runtime: Runtime, available_bits: Option<u32>) -> spec_fn(ModelView) -> bool {
    |m: ModelView| m.runtimes.contains(runtime) && match available_bits {
        Some(a) => f32_bits_le(m.memory_required_gb_bits, a),
        None => true,
    }
}

/// The models that suit `runtime` and fit the optional memory budget, in
/// order.
fn retain_models(models: Vec<ModelInfo>, runtime: Runtime, available_bits: Option<u32>) -> (out: Vec<ModelInfo>)
    ensures
        views(out@) == views(models@).filter(wanted(runtime, available_bits)),
{
    let ghost pred = wanted(runtime, available_bits);
    let ghost orig = models@;
    let mut rest = models;
    let mut out: Vec<ModelInfo> = Vec::new();
    let ghost mut k: int = 0;
    while rest.len() > 0
        invariant
            0 <= k <= orig.len(),
            pred == wanted(runtime, available_bits),
            rest@ == orig.subrange(k, orig.len() as int),
            views(out@) == views(orig.subrange(0, k)).filter(pred),
        decreases rest@.len(),
    {
        let m = rest.remove(0);
        proof {
            reveal(Seq::filter);
            assert(m == orig[k]);
            assert(views(orig.subrange(0, k + 1)).drop_last() =~= views(orig.subrange(0, k)));
            assert(views(orig.subrange(0, k + 1)).last() == m@);
        }
        let mut suits_rt = false;
        let mut j: usize = 0;
        while j < m.recommended_runtimes.len()
            invariant
                j <= m.recommended_runtimes@.len(),
                !suits_rt ==> forall|q: int| 0 <= q < j ==> m.recommended_runtimes@[q] != runtime,
                suits_rt ==> m.recommended_runtimes@.contains(runtime),
            decreases m.recommended_runtimes@.len() - j,
        {
            if m.recommended_runtimes[j] == runtime {
                suits_rt = true;
            }
            j += 1;
        }
        let fits = match available_bits {
            Some(a) => f32_bits_le_exec(m.memory_required_gb_bits, a),
            None => true,
        };
        let keep = suits_rt && fits;
        proof {
            assert(keep == pred(m@));
        }
        let ghost before = out@;
        if keep {
            out.push(m);
            proof {
                assert(views(out@) =~= views(before).push(orig[k]@));
            }
        }
        proof {
            k = k + 1;
            assert(rest@ =~= orig.subrange(k, orig.len() as int));
        }
    }
    proof {
        assert(orig.subrange(0, k) =~= orig);
    }
    out
}

impl ModelRegistry {
    /// The models that suit `runtime`, in catalogue order.
    pub fn models_for_runtime(runtime: Runtime) -> (v: Vec<ModelInfo>)
        ensures
            views(v@) == model_table().filter(suits(runtime)),
    {
        let all = ModelRegistry::all_models();
        let v = retain_models(all, runtime, None);
        proof {
            assert(wanted(runtime, None) =~= suits(runtime));
        }
        v
    }

    /// The models that suit `runtime` and need no more memory than
    /// `available_memory_gb_bits` (an `f32` bit pattern), in catalogue
    /// order.
    pub fn recommend_models(runtime: Runtime, available_memory_gb_bits: u32) -> (v: Vec<ModelInfo>)
        ensures
            views(v@) == model_table().filter(suits(runtime)).filter(fits_memory(available_memory_gb_bits)),
    {
        let all = ModelRegistry::all_models();
        let v = retain_models(all, runtime, Some(available_memory_gb_bits));
        proof {
            lemma_filter_filter(
                model_table(),
                suits(runtime),
                fits_memory(available_memory_gb_bits),
                wanted(runtime, Some(available_memory_gb_bits)),
            );
        }
        v
    }

    /// The preferred model for `runtime`: standard tier first, then
    /// premium, then lightweight; `None` when no such model suits it.
    pub fn best_for_runtime(runtime: Runtime) -> (r: Option<ModelInfo>)
        ensures
            match (r, best_of(model_table().filter(suits(runtime)))) {
                (Some(m), Some(w)) => m@ == w,
                (None, None) => true,
                _ => false,
            },
    {
        let mut models = ModelRegistry::models_for_runtime(runtime);
        match find_tier(&models, QualityTier::Standard) {
            Some(i) => {
                return Some(models.remove(i));
            },
            None => {},
        }
        match find_tier(&models, QualityTier::Premium) {
            Some(i) => {
                return Some(models.remove(i));
            },
            None => {},
        }
        match find_tier(&models, QualityTier::Lightweight) {
            Some(i) => Some(models.remove(i)),
            None => None,
        }
    }
}

/// Index of the first model of tier `t`.
fn find_tier(models: &Vec<ModelInfo>, t: QualityTier) -> (r: Option<usize>)
    ensures
        match r {
            Some(i) => i < models@.len() && first_of_tier(views(models@), t) == Some(models@[i as int]@),
            None => first_of_tier(views(models@), t) is None,
        },
{
    let mut i: usize = 0;
    while i < models.len()
        invariant
            i <= models@.len(),
            forall|j: int| 0 <= j < i ==> views(models@)[j].tier != t,
        decreases models@.len() - i,
    {
        if models[i].quality_tier == t {
            proof {
                lemma_first_of_tier_at(views(models@), t, i as int);
            }
            return Some(i);
        }
        i += 1;
    }
    proof {
        lemma_first_of_tier_none(views(models@), t);
    }
    None
}

/// Filtering twice is filtering once by both conditions.
proof fn lemma_filter_filter(
    s: Seq<ModelView>,
    p: spec_fn(ModelView) -> bool,
    q: spec_fn(ModelView) -> bool,
    both: spec_fn(ModelView) -> bool,
)
    requires
        forall|m: ModelView| #[trigger] both(m) == (p(m) && q(m)),
    ensures
        s.filter(p).filter(q) == s.filter(both),
    decreases s.len(),
{
    reveal(Seq::filter);
    if s.len() > 0 {
        lemma_filter_filter(s.drop_last(), p, q, both);
        let l = s.last();
        if p(l) {
            assert(s.filter(p).drop_last() =~= s.drop_last().filter(p));
            assert(s.filter(p).last() == l);
        } else {
            assert(s.filter(p) == s.drop_last().filter(p));
        }
        assert(s.filter(p).filter(q) =~= s.filter(both));
    }
}

/// `<=` on `f32` bit patterns is transitive.
pub proof fn lemma_f32_bits_le_transitive(a: u32, b: u32, c: u32)
    requires
        f32_bits_le(a, b),
        f32_bits_le(b, c),
    ensures
        f32_bits_le(a, c),
{
}

/// More memory recommends more: when `m1 <= m2`, the models recommended for
/// `m1` are exactly those recommended for `m2` that also fit in `m1`, in the
/// same order, so there are no more of them.
pub proof fn lemma_recommendations_grow_with_memory(runtime: Runtime, m1: u32, m2: u32)
    requires
        f32_bits_le(m1, m2),
    ensures
        model_table().filter(suits(runtime)).filter(fits_memory(m1))
            == model_table().filter(suits(runtime)).filter(fits_memory(m2)).filter(fits_memory(m1)),
        model_table().filter(suits(runtime)).filter(fits_memory(m1)).len()
            <= model_table().filter(suits(runtime)).filter(fits_memory(m2)).len(),
{
    let s = model_table().filter(suits(runtime));
    assert forall|m: ModelView| #[trigger] fits_memory(m1)(m) == (fits_memory(m2)(m) && fits_memory(m1)(m)) by {
        if fits_memory(m1)(m) {
            lemma_f32_bits_le_transitive(m.memory_required_gb_bits, m1, m2);
        }
    }
    lemma_filter_filter(s, fits_memory(m2), fits_memory(m1), fits_memory(m1));
    s.filter(fits_memory(m2)).filter_lemma(fits_memory(m1));
}

} // verus!
