//! Lowered functions.
use crate::diagnostics::Maybe;
use crate::ids::{BlockId, ConcreteEnumId, FunctionId, SyntaxStablePtrId, TypeId, VariableId};
use crate::semantic::types::ConcreteVariant;
use vstd::prelude::*;

verus! {

/// A variable of a lowered function.
#[derive(Clone, Copy, PartialEq, Eq, Structural, Debug)]
pub struct Variable {
    pub ty: TypeId,
    pub duplicatable: bool,
    pub droppable: bool,
}

/// A simple statement.
#[derive(Debug)]
pub enum Statement {
    /// A literal, by the bytes of its two's complement, least significant first.
    Literal { ty: TypeId, value: Vec<u8>, output: VariableId },
    /// A call of a function.
    Call { function: FunctionId, inputs: Vec<VariableId>, outputs: Vec<VariableId> },
    /// Runs a block in the middle of another one.
    CallBlock { block: BlockId, outputs: Vec<VariableId> },
    /// A call of an external function that goes on in one of several blocks.
    MatchExtern {
        function: FunctionId,
        inputs: Vec<VariableId>,
        arms: Vec<(ConcreteVariant, BlockId)>,
        outputs: Vec<VariableId>,
    },
    /// Packs the members of a struct or tuple.
    StructConstruct { inputs: Vec<VariableId>, output: VariableId },
    /// Unpacks the members of a struct or tuple.
    StructDestructure { input: VariableId, outputs: Vec<VariableId> },
    /// Makes a value of an enum.
    EnumConstruct { variant: ConcreteVariant, input: VariableId, output: VariableId },
    /// Goes on in the block of the variant that a value has.
    MatchEnum {
        concrete_enum_id: ConcreteEnumId,
        input: VariableId,
        arms: Vec<(ConcreteVariant, BlockId)>,
        outputs: Vec<VariableId>,
    },
}

/// The mathematical counterpart of [Statement].
pub enum StatementModel {
    Literal { ty: TypeId, value: Seq<u8>, output: VariableId },
    Call { function: FunctionId, inputs: Seq<VariableId>, outputs: Seq<VariableId> },
    CallBlock { block: BlockId, outputs: Seq<VariableId> },
    MatchExtern {
        function: FunctionId,
        inputs: Seq<VariableId>,
        arms: Seq<(ConcreteVariant, BlockId)>,
        outputs: Seq<VariableId>,
    },
    StructConstruct { inputs: Seq<VariableId>, output: VariableId },
    StructDestructure { input: VariableId, outputs: Seq<VariableId> },
    EnumConstruct { variant: ConcreteVariant, input: VariableId, output: VariableId },
    MatchEnum {
        concrete_enum_id: ConcreteEnumId,
        input: VariableId,
        arms: Seq<(ConcreteVariant, BlockId)>,
        outputs: Seq<VariableId>,
    },
}

impl View for Statement {
    type V = StatementModel;

    open spec fn view(&self) -> StatementModel {
        match self {
            Statement::Literal { ty, value, output } => StatementModel::Literal {
                ty: *ty,
                value: value@,
                output: *output,
            },
            Statement::Call { function, inputs, outputs } => StatementModel::Call {
                function: *function,
                inputs: inputs@,
                outputs: outputs@,
            },
            Statement::CallBlock { block, outputs } => StatementModel::CallBlock {
                block: *block,
                outputs: outputs@,
            },
            Statement::MatchExtern { function, inputs, arms, outputs } => {
                StatementModel::MatchExtern {
                    function: *function,
                    inputs: inputs@,
                    arms: arms@,
                    outputs: outputs@,
                }
            },
            Statement::StructConstruct { inputs, output } => StatementModel::StructConstruct {
                inputs: inputs@,
                output: *output,
            },
            Statement::StructDestructure { input, outputs } => StatementModel::StructDestructure {
                input: *input,
                outputs: outputs@,
            },
            Statement::EnumConstruct { variant, input, output } => StatementModel::EnumConstruct {
                variant: *variant,
                input: *input,
                output: *output,
            },
            Statement::MatchEnum { concrete_enum_id, input, arms, outputs } => {
                StatementModel::MatchEnum {
                    concrete_enum_id: *concrete_enum_id,
                    input: *input,
                    arms: arms@,
                    outputs: outputs@,
                }
            },
        }
    }
}

/// A statement, and where the implicits are after it.
#[derive(Debug)]
pub struct StructuredStatement {
    pub statement: Statement,
    pub refs: Vec<(TypeId, VariableId)>,
}

/// The mathematical counterpart of [StructuredStatement].
#[verifier::ext_equal]
pub struct StructuredStatementModel {
    pub statement: StatementModel,
    pub refs: Seq<(TypeId, VariableId)>,
}

impl View for StructuredStatement {
    type V = StructuredStatementModel;

    open spec fn view(&self) -> StructuredStatementModel {
        StructuredStatementModel { statement: self.statement@, refs: self.refs@ }
    }
}

/// How a block ends.
#[derive(Debug)]
pub enum StructuredBlockEnd {
    /// The statement that ran the block goes on, with these outputs.
    Callsite(Vec<VariableId>),
    /// The function returns.
    Return { refs: Vec<VariableId>, returned: Vec<VariableId> },
    /// The function panics.
    Panic { refs: Vec<VariableId>, data: VariableId },
    /// The last statement of the block never goes on.
    Unreachable,
}

/// The mathematical counterpart of [StructuredBlockEnd].
pub enum BlockEndModel {
    Callsite(Seq<VariableId>),
    Return { refs: Seq<VariableId>, returned: Seq<VariableId> },
    Panic { refs: Seq<VariableId>, data: VariableId },
    Unreachable,
}

impl View for StructuredBlockEnd {
    type V = BlockEndModel;

    open spec fn view(&self) -> BlockEndModel {
        match self {
            StructuredBlockEnd::Callsite(outputs) => BlockEndModel::Callsite(outputs@),
            StructuredBlockEnd::Return { refs, returned } => BlockEndModel::Return {
                refs: refs@,
                returned: returned@,
            },
            StructuredBlockEnd::Panic { refs, data } => BlockEndModel::Panic {
                refs: refs@,
                data: *data,
            },
            StructuredBlockEnd::Unreachable => BlockEndModel::Unreachable,
        }
    }
}

/// A block of a lowered function.
#[derive(Debug)]
pub struct StructuredBlock {
    pub inputs: Vec<VariableId>,
    /// Where the implicits are at the start of the block.
    pub initial_refs: Vec<(TypeId, VariableId)>,
    pub statements: Vec<StructuredStatement>,
    pub end: StructuredBlockEnd,
}

/// The mathematical counterpart of [StructuredBlock].
#[verifier::ext_equal]
pub struct BlockModel {
    pub inputs: Seq<VariableId>,
    pub initial_refs: Seq<(TypeId, VariableId)>,
    pub statements: Seq<StructuredStatementModel>,
    pub end: BlockEndModel,
}

impl View for StructuredBlock {
    type V = BlockModel;

    open spec fn view(&self) -> BlockModel {
        BlockModel {
            inputs: self.inputs@,
            initial_refs: self.initial_refs@,
            statements: self.statements@.map_values(|s: StructuredStatement| s@),
            end: self.end@,
        }
    }
}

/// What a diagnostic of the lowering says.
#[derive(Clone, Copy, PartialEq, Eq, Structural, Debug, Hash)]
pub enum LoweringDiagnosticKind {
    Unreachable { last_statement_ptr: SyntaxStablePtrId },
    NonZeroValueInMatch,
    OnlyMatchZeroIsSupported,
    VariableMoved,
    UnsupportedMatch,
    UnsupportedMatchArm,
}

/// A diagnostic of the lowering, and the place that it is about.
#[derive(Clone, Copy, PartialEq, Eq, Structural, Debug, Hash)]
pub struct LoweringDiagnostic {
    pub stable_ptr: SyntaxStablePtrId,
    pub kind: LoweringDiagnosticKind,
}

/// A lowered function.
#[derive(Debug)]
pub struct StructuredLowered {
    pub diagnostics: Vec<LoweringDiagnostic>,
    /// The block that the function starts with, unless the lowering failed.
    pub root: Maybe<BlockId>,
    pub variables: Vec<Variable>,
    pub blocks: Vec<StructuredBlock>,
}

} // verus!
