//! Trusted boundary to the assembler.
//!
//! The assembler turns source ASTs into compiled code blocks and procedure
//! digests; it is a black box to this crate. The wrappers below make its
//! calls and convert the results into the crate's own model types: a
//! compiled note script's control-flow tree becomes a [`CodeBlock`] value
//! that the verified compatibility analysis walks, and procedure roots
//! become plain [`Digest`] values.

use vstd::prelude::*;
use miden_assembly::{Assembler, AssemblyContext, AssemblyContextType, LibraryPath, Module};
use miden_assembly::ast::{ModuleAst, ProgramAst};
use miden_core::code_blocks::CodeBlock as VmCodeBlock;
use miden_core::StarkField;
use crate::compiler::CodeBlock;
use crate::word::Digest;

verus! {

#[verifier::external_type_specification]
#[verifier::external_body]
pub struct ExAssembler(Assembler);

#[verifier::external_type_specification]
#[verifier::external_body]
pub struct ExModuleAst(ModuleAst);

#[verifier::external_type_specification]
#[verifier::external_body]
pub struct ExProgramAst(ProgramAst);

#[verifier::external_type_specification]
#[verifier::external_body]
pub struct ExAssemblyError(miden_assembly::AssemblyError);

#[verifier::external_type_specification]
#[verifier::external_body]
pub struct ExVmCodeBlock(VmCodeBlock);

#[verifier::external_type_specification]
#[verifier::external_body]
pub struct ExVmFelt(miden_core::Felt);

#[verifier::external_type_specification]
#[verifier::external_body]
pub struct ExVmDigest(miden_core::crypto::hash::RpoDigest);

/// Relies on Assembler::default: returns a fresh assembler with an empty
/// module and procedure cache.
#[verifier::external_body]
pub(crate) fn new_assembler() -> Assembler {
    Assembler::default()
}

/// Relies on Assembler::compile_in_context: compiles a program AST in a
/// fresh program context and returns the program's root code block, or
/// the assembly error.
#[verifier::external_body]
pub(crate) fn compile_program(assembler: &Assembler, ast: &ProgramAst) -> Result<
    VmCodeBlock,
    miden_assembly::AssemblyError,
> {
    let mut context = AssemblyContext::new(AssemblyContextType::Program);
    assembler.compile_in_context(ast, &mut context)
}

/// Relies on the code-block accessors of the compiled program (first,
/// second, on_true, on_false, body, fn_hash): maps each block kind to its
/// model node, one arm per kind, converting call targets into digests.
#[verifier::external_body]
pub(crate) fn model_block(block: &VmCodeBlock) -> CodeBlock {
    match block {
        VmCodeBlock::Join(b) => CodeBlock::Join(
            Box::new(model_block(b.first())),
            Box::new(model_block(b.second())),
        ),
        VmCodeBlock::Split(b) => CodeBlock::Split(
            Box::new(model_block(b.on_true())),
            Box::new(model_block(b.on_false())),
        ),
        VmCodeBlock::Loop(b) => CodeBlock::Loop(Box::new(model_block(b.body()))),
        VmCodeBlock::Call(b) => CodeBlock::Call(vm_digest(&b.fn_hash())),
        VmCodeBlock::Span(_) => CodeBlock::Span,
        VmCodeBlock::Proxy(_) => CodeBlock::Proxy,
    }
}

/// Relies on CodeBlock::hash: returns the block's content digest, with
/// every element in canonical form.
#[verifier::external_body]
pub(crate) fn block_hash(block: &VmCodeBlock) -> (r: Digest)
    ensures
        r.wf(),
{
    vm_digest(&block.hash())
}

/// Relies on RpoDigest::as_elements and StarkField::as_int: reads the
/// four elements of a digest in canonical form.
#[verifier::external_body]
pub(crate) fn vm_digest(digest: &miden_core::crypto::hash::RpoDigest) -> (r: Digest)
    ensures
        r.wf(),
{
    let e = digest.as_elements();
    Digest([e[0].as_int(), e[1].as_int(), e[2].as_int(), e[3].as_int()])
}

/// Relies on Assembler::compile_module: compiles all procedures of the
/// module in a fresh module context under a path made unique by the tag
/// (the returned MAST roots do not depend on the path), and returns the
/// digests of its exported procedures in order, or the assembly error.
#[verifier::external_body]
pub(crate) fn compile_module_procs(assembler: &Assembler, module: &ModuleAst, tag: u64) -> (r:
    Result<Vec<Digest>, miden_assembly::AssemblyError>)
    ensures
        r matches Ok(procs) ==> forall|i: int| 0 <= i < procs@.len() ==> (#[trigger] procs@[i]).wf(),
{
    let path = LibraryPath::new(format!("account{}", tag))
        .expect("a one-component alphanumeric path is valid");
    let module = Module::new(path, ast_clone(module));
    let mut context = AssemblyContext::new(AssemblyContextType::Module);
    let roots = assembler.compile_module(&module, &mut context)?;
    let mut out: Vec<Digest> = Vec::with_capacity(roots.len());
    for root in roots.iter() {
        out.push(vm_digest(root));
    }
    Ok(out)
}

/// Relies on ModuleAst::clone.
#[verifier::external_body]
pub(crate) fn ast_clone(module: &ModuleAst) -> ModuleAst {
    module.clone()
}

} // verus!
