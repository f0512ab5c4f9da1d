//! Transaction compiler: loads account code, compiles note scripts, and
//! decides — before any expensive proving happens — whether a note script
//! can execute against a target account's procedure set.
//!
//! The decision is a static branch-compatibility analysis over the
//! script's control-flow tree: a list of branches is grown along the
//! tree, each branch carrying the call targets collected on one possible
//! execution path, and the script is compatible iff at least one branch
//! calls only procedures the account exposes.

use vstd::prelude::*;
use std::collections::HashMap;
use miden_assembly::ast::{ModuleAst, ProgramAst};
use miden_assembly::Assembler;
use crate::assembler::{
    block_hash, compile_module_procs, compile_program, model_block, new_assembler,
};
use crate::word::Digest;

verus! {

/// A node of a compiled script's control-flow tree: sequential
/// composition, a data-dependent branch, a loop, a call to a procedure
/// identified by its digest, a leaf span of straight-line code, or an
/// opaque proxy known only by hash.
pub enum CodeBlock {
    Join(Box<CodeBlock>, Box<CodeBlock>),
    Split(Box<CodeBlock>, Box<CodeBlock>),
    Loop(Box<CodeBlock>),
    Call(Digest),
    Span,
    Proxy,
}

/// The branch list after traversing a block: sequencing appends to the
/// current branches; a split traverses its false side into the last
/// branch and, if that added calls, forks a fresh copy of the pre-split
/// prefix for the true side; a loop is approximated by one traversal of
/// its body; a call appends its target to the last branch.
pub open spec fn spec_collect(block: CodeBlock, branches: Seq<Seq<Digest>>) -> Seq<Seq<Digest>>
    decreases block,
{
    match block {
        CodeBlock::Join(a, b) => spec_collect(*b, spec_collect(*a, branches)),
        CodeBlock::Split(on_true, on_false) => {
            let current_len = branches.last().len();
            let after_false = spec_collect(*on_false, branches);
            let forked = if after_false.last().len() > current_len {
                after_false.push(after_false.last().take(current_len as int))
            } else {
                after_false
            };
            spec_collect(*on_true, forked)
        },
        CodeBlock::Loop(body) => spec_collect(*body, branches),
        CodeBlock::Call(target) => branches.update(
            branches.len() - 1,
            branches.last().push(target),
        ),
        CodeBlock::Span => branches,
        CodeBlock::Proxy => branches,
    }
}

/// Traversal never empties the branch list.
pub proof fn lemma_collect_nonempty(block: CodeBlock, branches: Seq<Seq<Digest>>)
    requires
        branches.len() > 0,
    ensures
        spec_collect(block, branches).len() > 0,
    decreases block,
{
    match block {
        CodeBlock::Join(a, b) => {
            lemma_collect_nonempty(*a, branches);
            lemma_collect_nonempty(*b, spec_collect(*a, branches));
        },
        CodeBlock::Split(on_true, on_false) => {
            lemma_collect_nonempty(*on_false, branches);
            let current_len = branches.last().len();
            let after_false = spec_collect(*on_false, branches);
            let forked = if after_false.last().len() > current_len {
                after_false.push(after_false.last().take(current_len as int))
            } else {
                after_false
            };
            lemma_collect_nonempty(*on_true, forked);
        },
        CodeBlock::Loop(body) => {
            lemma_collect_nonempty(*body, branches);
        },
        _ => {},
    }
}

/// Every call target in the branch belongs to the target procedure set.
pub open spec fn branch_compatible(branch: Seq<Digest>, procs: Seq<Digest>) -> bool {
    forall|i: int| 0 <= i < branch.len() ==> procs.contains(#[trigger] branch[i])
}

/// The branch lists the analysis of a script root produces, seeded with
/// one empty branch.
pub open spec fn spec_call_branches(root: CodeBlock) -> Seq<Seq<Digest>> {
    spec_collect(root, seq![Seq::<Digest>::empty()])
}

/// A note script is compatible with a target procedure set iff at least
/// one collected branch calls only procedures in the set.
pub open spec fn spec_note_compatible(root: CodeBlock, procs: Seq<Digest>) -> bool {
    exists|b: int|
        0 <= b < spec_call_branches(root).len() && branch_compatible(
            #[trigger] spec_call_branches(root)[b],
            procs,
        )
}

/// The view of an executable branch list.
pub open spec fn branches_view(branches: Seq<Vec<Digest>>) -> Seq<Seq<Digest>> {
    branches.map_values(|v: Vec<Digest>| v@)
}

/// Generates the list of calls invoked in each execution branch of the
/// provided code block, extending the given branch list exactly as the
/// analysis specifies.
pub fn collect_call_branches(code_block: &CodeBlock, branches: &mut Vec<Vec<Digest>>)
    requires
        old(branches)@.len() > 0,
    ensures
        final(branches)@.len() > 0,
        branches_view(final(branches)@) == spec_collect(*code_block, branches_view(old(branches)@)),
    decreases *code_block,
{
    proof {
        lemma_collect_nonempty(*code_block, branches_view(branches@));
        assert(branches_view(branches@).len() == branches@.len());
    }
    match code_block {
        CodeBlock::Join(a, b) => {
            collect_call_branches(a, branches);
            collect_call_branches(b, branches);
        },
        CodeBlock::Split(on_true, on_false) => {
            let ghost pre = branches_view(branches@);
            let current_len = branches[branches.len() - 1].len();
            proof {
                assert(pre.last() == branches@.last()@);
            }
            collect_call_branches(on_false, branches);
            let ghost after_false = branches_view(branches@);
            if branches[branches.len() - 1].len() > current_len {
                let last = &branches[branches.len() - 1];
                let mut prefix: Vec<Digest> = Vec::new();
                for i in 0..current_len
                    invariant
                        current_len <= last@.len(),
                        prefix@ == last@.take(i as int),
                    decreases current_len - i,
                {
                    prefix.push(last[i]);
                    proof {
                        assert(prefix@ =~= last@.take(i + 1));
                    }
                }
                branches.push(prefix);
                proof {
                    assert(branches_view(branches@) =~= after_false.push(
                        after_false.last().take(current_len as int),
                    ));
                }
            }
            collect_call_branches(on_true, branches);
        },
        CodeBlock::Loop(body) => {
            collect_call_branches(body, branches);
        },
        CodeBlock::Call(target) => {
            let mut last = branches.pop().unwrap();
            last.push(*target);
            branches.push(last);
            proof {
                assert(branches_view(branches@) =~= branches_view(old(branches)@).update(
                    branches_view(old(branches)@).len() - 1,
                    branches_view(old(branches)@).last().push(*target),
                ));
            }
        },
        CodeBlock::Span => {},
        CodeBlock::Proxy => {},
    }
}

/// Returns true iff the procedure set contains the digest.
fn contains_digest(procs: &Vec<Digest>, d: &Digest) -> (r: bool)
    ensures
        r == procs@.contains(*d),
{
    for i in 0..procs.len()
        invariant
            forall|k: int| 0 <= k < i ==> procs@[k] != *d,
        decreases procs.len() - i,
    {
        if procs[i] == *d {
            return true;
        }
    }
    false
}

/// Verifies that the provided note script is compatible with the target
/// account interface: succeeds iff at least one execution branch of the
/// script calls only procedures of the target set, and otherwise fails
/// with the script's root digest as the error payload.
pub fn verify_note_account_compatibility(
    note_root: &CodeBlock,
    note_root_hash: Digest,
    target_account_procs: &Vec<Digest>,
) -> (r: Result<(), TransactionError>)
    ensures
        r is Ok <==> spec_note_compatible(*note_root, target_account_procs@),
        !spec_note_compatible(*note_root, target_account_procs@) ==> r
            == Result::<(), TransactionError>::Err(
            TransactionError::NoteIncompatibleWithAccount(note_root_hash),
        ),
{
    // seed one empty execution branch, then collect all call branches
    let mut branches: Vec<Vec<Digest>> = Vec::new();
    let empty_branch: Vec<Digest> = Vec::new();
    branches.push(empty_branch);
    proof {
        assert(branches_view(branches@) =~= seq![Seq::<Digest>::empty()]);
    }
    collect_call_branches(note_root, &mut branches);
    // accept iff some branch's calls all belong to the target set
    let ghost collected = spec_call_branches(*note_root);
    for b in 0..branches.len()
        invariant
            collected == spec_call_branches(*note_root),
            branches_view(branches@) == collected,
            branches@.len() == collected.len(),
            forall|b2: int| 0 <= b2 < b ==> !branch_compatible(#[trigger] collected[b2],
                target_account_procs@),
        decreases branches.len() - b,
    {
        let branch = &branches[b];
        let mut all_known = true;
        for i in 0..branch.len()
            invariant
                branch@ == collected[b as int],
                all_known ==> forall|k: int|
                    0 <= k < i ==> target_account_procs@.contains(#[trigger] branch@[k]),
                !all_known ==> !branch_compatible(collected[b as int], target_account_procs@),
            decreases branch.len() - i,
        {
            if !contains_digest(target_account_procs, &branch[i]) {
                all_known = false;
            }
        }
        if all_known {
            proof {
                assert(branch_compatible(collected[b as int], target_account_procs@));
                assert(branch_compatible(
                    #[trigger] spec_call_branches(*note_root)[b as int],
                    target_account_procs@,
                ));
                assert(spec_note_compatible(*note_root, target_account_procs@));
            }
            return Ok(());
        }
    }
    proof {
        assert(!spec_note_compatible(*note_root, target_account_procs@));
    }
    Err(TransactionError::NoteIncompatibleWithAccount(note_root_hash))
}

/// Errors of the transaction compiler.
#[derive(Debug)]
pub enum TransactionError {
    /// The account module failed to compile; wraps the assembly error.
    LoadAccountFailed(miden_assembly::AssemblyError),
    /// The note script failed to compile.
    CompileNoteScriptFailed,
    /// The compatibility analysis found no admissible branch; carries the
    /// script's root digest for diagnostics.
    NoteIncompatibleWithAccount(Digest),
}

/// Compiled account code: the digests of the procedures the account
/// exposes, recorded under the account's identifier.
pub struct AccountCode {
    pub account_id: u64,
    pub procedures: Vec<Digest>,
}

/// A compiled note script: its control-flow tree, its root digest — the
/// script's on-chain identity — and the source AST it was compiled from.
pub struct NoteScript {
    pub code_block: CodeBlock,
    pub root_hash: Digest,
    pub code: ProgramAst,
}

impl NoteScript {
    /// Compiles the provided program against the given assembler into a
    /// note script: the model of its control-flow tree, its root digest,
    /// and the source it was compiled from.
    pub fn new(code: ProgramAst, assembler: &Assembler) -> (r: Result<
        NoteScript,
        TransactionError,
    >)
        ensures
            r matches Ok(script) ==> script.code == code,
            r matches Err(e) ==> e is CompileNoteScriptFailed,
    {
        let compiled = match compile_program(assembler, &code) {
            Ok(block) => block,
            Err(_) => {
                return Err(TransactionError::CompileNoteScriptFailed);
            },
        };
        let code_block = model_block(&compiled);
        let root_hash = block_hash(&compiled);
        Ok(NoteScript { code_block, root_hash, code })
    }

    /// Returns the hash of this note script: the root code block's digest.
    pub fn hash(&self) -> (r: Digest)
        ensures
            r == self.root_hash,
    {
        self.root_hash
    }

    /// Returns the root code block of this note script.
    pub fn code_block(&self) -> (r: &CodeBlock)
        ensures
            r == &self.code_block,
    {
        &self.code_block
    }

    /// Returns the source AST of this note script.
    pub fn code(&self) -> (r: &ProgramAst)
        ensures
            r == &self.code,
    {
        &self.code
    }
}

/// The transaction compiler: an assembler shared by all compilations and
/// the table of procedure digests per loaded account.
pub struct TransactionComplier {
    assembler: Assembler,
    account_procedures: HashMap<u64, Vec<Digest>>,
    loads: u64,
}

impl TransactionComplier {
    /// The table of procedure digests per loaded account.
    pub closed spec fn procedures(&self) -> Map<u64, Vec<Digest>> {
        self.account_procedures@
    }

    /// Returns a new transaction compiler with a fresh assembler and an
    /// empty account table.
    pub fn new() -> (r: Self)
        ensures
            r.procedures() == Map::<u64, Vec<Digest>>::empty(),
    {
        TransactionComplier {
            assembler: new_assembler(),
            account_procedures: HashMap::new(),
            loads: 0,
        }
    }

    /// Compiles the provided module into account code and associates the
    /// resulting procedures with the specified account ID, overwriting
    /// any prior entry for that ID — last write wins. On failure the
    /// table is unchanged and the assembly error is wrapped.
    pub fn load_account(&mut self, account_id: u64, account_code: ModuleAst) -> (r: Result<
        AccountCode,
        TransactionError,
    >)
        ensures
            r matches Ok(code) ==> {
                &&& code.account_id == account_id
                &&& final(self).procedures().contains_key(account_id)
                &&& final(self).procedures()[account_id]@ == code.procedures@
                &&& (forall|id: u64|
                    #[trigger] final(self).procedures().contains_key(id) ==> id == account_id
                        || old(self).procedures().contains_key(id))
                &&& (forall|id: u64|
                    id != account_id && #[trigger] old(self).procedures().contains_key(id)
                        ==> final(self).procedures().contains_key(id)
                        && final(self).procedures()[id] == old(self).procedures()[id])
            },
            r is Err ==> final(self).procedures() == old(self).procedures() && (r matches Err(e)
                && e is LoadAccountFailed),
    {
        if self.loads < u64::MAX {
            self.loads = self.loads + 1;
        }
        match compile_module_procs(&self.assembler, &account_code, self.loads) {
            Ok(procedures) => {
                let mut recorded: Vec<Digest> = Vec::new();
                for i in 0..procedures.len()
                    invariant
                        recorded@ == procedures@.take(i as int),
                    decreases procedures.len() - i,
                {
                    recorded.push(procedures[i]);
                    proof {
                        assert(recorded@ =~= procedures@.take(i + 1));
                    }
                }
                proof {
                    assert(recorded@ =~= procedures@);
                }
                self.account_procedures.insert(account_id, recorded);
                Ok(AccountCode { account_id, procedures })
            },
            Err(e) => Err(TransactionError::LoadAccountFailed(e)),
        }
    }

    /// Compiles the provided program into a note script and, when a
    /// target procedure set is supplied, checks that the note could be
    /// executed against an account with that interface. Compilation
    /// without a target check is accepted unconditionally once it
    /// compiles; with a target, the script is returned iff some execution
    /// branch of its code block calls only target procedures.
    pub fn compile_note_script(
        &mut self,
        note_script_ast: ProgramAst,
        target_account_proc: &Option<Vec<Digest>>,
    ) -> (r: Result<NoteScript, TransactionError>)
        ensures
            final(self).procedures() == old(self).procedures(),
            r matches Ok(ns) ==> ns.code == note_script_ast,
            r matches Ok(ns) ==> (target_account_proc matches Some(procs)
                ==> spec_note_compatible(ns.code_block, procs@)),
            r matches Err(e) ==> (e is CompileNoteScriptFailed || (e
                is NoteIncompatibleWithAccount && target_account_proc is Some)),
    {
        let note_script = match NoteScript::new(note_script_ast, &self.assembler) {
            Ok(script) => script,
            Err(e) => {
                return Err(e);
            },
        };

        // verify the note script is compatible with the target account
        // interface
        match target_account_proc {
            Some(target) => {
                match verify_note_account_compatibility(
                    &note_script.code_block,
                    note_script.root_hash,
                    target,
                ) {
                    Ok(_) => {},
                    Err(e) => {
                        return Err(e);
                    },
                }
            },
            None => {},
        }

        Ok(note_script)
    }
}

/// A block with no call node anywhere in its tree.
pub open spec fn has_no_calls(block: CodeBlock) -> bool
    decreases block,
{
    match block {
        CodeBlock::Join(a, b) => has_no_calls(*a) && has_no_calls(*b),
        CodeBlock::Split(on_true, on_false) => has_no_calls(*on_true) && has_no_calls(*on_false),
        CodeBlock::Loop(body) => has_no_calls(*body),
        CodeBlock::Call(_) => false,
        CodeBlock::Span => true,
        CodeBlock::Proxy => true,
    }
}

/// Traversing a call-free block leaves the branch list untouched.
proof fn lemma_no_calls_collect(block: CodeBlock, branches: Seq<Seq<Digest>>)
    requires
        has_no_calls(block),
        branches.len() > 0,
    ensures
        spec_collect(block, branches) == branches,
    decreases block,
{
    match block {
        CodeBlock::Join(a, b) => {
            lemma_no_calls_collect(*a, branches);
            lemma_no_calls_collect(*b, spec_collect(*a, branches));
        },
        CodeBlock::Split(on_true, on_false) => {
            lemma_no_calls_collect(*on_false, branches);
            lemma_no_calls_collect(*on_true, branches);
        },
        CodeBlock::Loop(body) => {
            lemma_no_calls_collect(*body, branches);
        },
        _ => {},
    }
}

/// Law: a note script containing no call node is compatible with every
/// target procedure set, including the empty one — its single empty
/// branch is vacuously compatible.
pub proof fn lemma_no_calls_compatible(root: CodeBlock, procs: Seq<Digest>)
    requires
        has_no_calls(root),
    ensures
        spec_note_compatible(root, procs),
{
    lemma_no_calls_collect(root, seq![Seq::<Digest>::empty()]);
    assert(spec_call_branches(root)[0] == Seq::<Digest>::empty());
    assert(branch_compatible(spec_call_branches(root)[0], procs));
}

/// Law: a script that is a single conditional whose sides each make one
/// call is rescued by either admissible side — it is compatible with a
/// target set iff the set contains at least one of the two call targets.
pub proof fn lemma_split_call_compatibility(
    true_target: Digest,
    false_target: Digest,
    procs: Seq<Digest>,
)
    ensures
        spec_note_compatible(
            CodeBlock::Split(
                Box::new(CodeBlock::Call(true_target)),
                Box::new(CodeBlock::Call(false_target)),
            ),
            procs,
        ) <==> (procs.contains(true_target) || procs.contains(false_target)),
{
    let root = CodeBlock::Split(
        Box::new(CodeBlock::Call(true_target)),
        Box::new(CodeBlock::Call(false_target)),
    );
    let seed = seq![Seq::<Digest>::empty()];
    assert(seed.last().len() == 0);
    let after_false = spec_collect(CodeBlock::Call(false_target), seed);
    assert(after_false == seed.update(0, seed.last().push(false_target)));
    assert(after_false =~= seq![seq![false_target]]);
    assert(after_false.last().len() > 0);
    let forked = after_false.push(after_false.last().take(0));
    assert(spec_call_branches(root) == spec_collect(CodeBlock::Call(true_target), forked));
    assert(after_false.last().take(0) =~= Seq::<Digest>::empty());
    assert(forked =~= seq![seq![false_target], Seq::<Digest>::empty()]);
    let branches = spec_call_branches(root);
    assert(branches == forked.update(1, forked.last().push(true_target)));
    assert(forked.last().push(true_target) =~= seq![true_target]);
    assert(branches =~= seq![seq![false_target], seq![true_target]]);
    if procs.contains(true_target) {
        assert(branch_compatible(branches[1], procs)) by {
            assert(forall|i: int| 0 <= i < 1 ==> branches[1][i] == true_target);
        }
        assert(spec_note_compatible(root, procs));
    } else if procs.contains(false_target) {
        assert(branch_compatible(branches[0], procs)) by {
            assert(forall|i: int| 0 <= i < 1 ==> branches[0][i] == false_target);
        }
        assert(spec_note_compatible(root, procs));
    } else {
        if spec_note_compatible(root, procs) {
            let b = choose|b: int|
                0 <= b < spec_call_branches(root).len() && branch_compatible(
                    #[trigger] spec_call_branches(root)[b],
                    procs,
                );
            if b == 0 {
                assert(branches[0][0] == false_target);
            } else {
                assert(branches[1][0] == true_target);
            }
            assert(false);
        }
    }
}

/// Law: a script whose whole body is one call is compatible with a
/// target set iff the set contains the call's target.
pub proof fn lemma_single_call_compatibility(target: Digest, procs: Seq<Digest>)
    ensures
        spec_note_compatible(CodeBlock::Call(target), procs) <==> procs.contains(target),
{
    let branches = spec_call_branches(CodeBlock::Call(target));
    assert(branches =~= seq![seq![target]]);
    if procs.contains(target) {
        assert(branch_compatible(branches[0], procs)) by {
            assert(forall|i: int| 0 <= i < 1 ==> branches[0][i] == target);
        }
    } else {
        assert(!branch_compatible(branches[0], procs)) by {
            assert(branches[0][0] == target);
        }
        if spec_note_compatible(CodeBlock::Call(target), procs) {
            let b = choose|b: int|
                0 <= b < spec_call_branches(CodeBlock::Call(target)).len() && branch_compatible(
                    #[trigger] spec_call_branches(CodeBlock::Call(target))[b],
                    procs,
                );
            assert(b == 0);
            assert(false);
        }
    }
}

} // verus!
