//! Pattern rules of the filter compiler.

pub mod class;
pub mod class_laws;
pub mod error;
pub mod limits;

pub use class::parse_character_class;
pub use class::PatternRange;
pub use error::CompileError;
pub use limits::compile_with_limit;
pub use limits::estimate_alternation_instructions;
pub use limits::estimate_character_class_instructions;
pub use limits::literal_search_instruction_count;
pub use limits::CharRange;
pub use limits::MAX_BPF_INSTRUCTION_LEN;
pub use limits::MAX_BPF_PATTERN_LEN;
