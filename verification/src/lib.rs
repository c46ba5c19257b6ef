//! Dynamic-depth inference building blocks with a symbolic reasoning
//! verifier: layer programs and the router that emits them, residency
//! planning, selection and usage statistics, the decisions of the
//! generation loop, GGUF tensor naming, and a chain-of-thought parser and
//! verifier with the sessions and evaluation built on it.
pub mod error;
pub mod text;
pub mod number;

pub mod layer_program;
pub mod tokens;
pub mod router;
pub mod telemetry;
pub mod usage_stats;
pub mod device_placement;
pub mod generation;
pub mod tensor_names;
pub mod model_config;
pub mod tokenizer;

pub mod reasoning;
pub mod parser;
pub mod arithmetic;
pub mod logic;
pub mod score;
pub mod verdict;

pub mod session;
pub mod evaluation;

pub use error::{AbyssError, AbyssResult};
pub use number::Decimal;

pub use layer_program::{LayerId, LayerProgram, LayerProgramBuilder};
pub use tokens::{Position, Token, TokenId};
pub use router::{
    HeuristicRouter, RouterConfig, RouterConfigBuilder, RouterFeatures, RouterFeaturesBuilder,
};
pub use telemetry::LayerSelectionStats;
pub use usage_stats::{ActivationLog, LayerUsageStats, UsageEntry};
pub use device_placement::{DeviceSpec, LayerResidency, ResidencyPlan};
pub use generation::{
    activation_entropy, choose_program, last_residual_magnitude, or_sequential, unique_blocks,
    GenerationLoop,
};
pub use tensor_names::{
    block_tensor_names, find_tensor_name, output_head_name, resolve_block, resolve_block_eager,
    resolve_blocks, BlockTensorNames,
};
pub use model_config::{vocab_size_or, MetaValue, ModelShape};
pub use tokenizer::{engine_result, TextTokenizer};

pub use reasoning::{
    Millionths, ReasoningStep, ReasoningTrace, StepKind, VerificationResult, VerificationStatus,
    Violation,
};
pub use parser::{classify, looks_arithmetic, parse_trace, ParseError, TraceParser};
pub use arithmetic::ArithmeticChecker;
pub use logic::ContradictionDetector;
pub use score::ConfidenceModel;
pub use verdict::verify;

pub use session::{
    byte_text, byte_tokens, correction_text, generation_mode, judge_attempt, parse_u32,
    program_override, prompt_text, qwen_chat_prompt, solve_report, solve_step, SolveState, SolveStep,
    MAX_DRAFTS,
};
pub use evaluation::{
    canned_correct_trace, canned_wrong_trace, evaluate, evaluate_item, subset, summarize,
    EvalItem, EvalOutcome,
};
