//! A continuation-passing, basic-block intermediate representation for a
//! dynamically typed, actor-style language, together with the passes that
//! operate on it.
//!
//! All IR nodes live in per-function arenas and are addressed by small dense
//! handles. The `Function` type aggregates the arenas and maintains a
//! predecessor/successor graph; its builder operations keep every
//! structural invariant intact; `SimplifyCfgPass` collapses chains of
//! trivial control-flow calls; the `Mangler` rebuilds a function under a
//! value substitution map.

mod entity;
mod ident;
mod constant;
mod location;
mod op;
mod value;
mod flow;
mod fun;
mod builder;
mod op_build;
mod validate;
mod analysis;
mod mangle;
mod simplify_cfg;
mod text;
mod iso;
mod parse;

pub use entity::{Argument, Block, Const, FunRef, Location, LocationTerminal, PrimOp, Value};
pub use ident::{AttributeKey, AttributeValue, Dialect, FunctionIdent, SourceSpan};
pub use constant::{ConstKind, ConstantContainer};
pub use location::{lemma_concat_spans, LocationContainer, LocationData, LocationTerminalData};
pub use op::{BasicType, BinaryEntrySpecifier, CallKind, MapPutUpdate, MatchKind, OpKind};
pub use value::{BinOp, LogicOp, PrimOpData, PrimOpKind, ValueData, ValueKind};
pub use flow::FlowSets;
pub use fun::{BlockData, Function};
pub use builder::{arenas_extend, primop_value_matches};
pub use op_build::{block_head_same, blocks_same_except, builder_frame};
pub use mangle::{fun_grows, Mangler};
pub use simplify_cfg::{FunctionPass, SimplifyCfgPass};
pub use text::{decimal_string, type_to_text};
pub use iso::{const_deep_eq, fn_isomorphic};
pub use parse::parse_function_text;
pub use validate::{lemma_consts_canonical, lemma_graph_edges, lemma_primop_value_unique, lemma_primops_canonical, lemma_value_argument};
