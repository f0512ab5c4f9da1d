use miden_assembly::ast::{ModuleAst, ProgramAst};
use miden_tx_core::compiler::{
    collect_call_branches, verify_note_account_compatibility, CodeBlock, TransactionComplier,
    TransactionError,
};
use miden_tx_core::word::Digest;
use miden_tx_core::memory::{consumed_note_data_ptr, CONSUMED_NOTE_SECTION_OFFSET};

fn d(x: u64) -> Digest {
    Digest([x, 0, 0, 0])
}

fn digest_hex(digest: &Digest) -> String {
    let mut s = String::from("0x");
    for element in digest.as_elements().iter() {
        for byte in element.to_le_bytes().iter() {
            s.push_str(&format!("{:02x}", byte));
        }
    }
    s
}

#[test]
fn script_without_calls_is_compatible_with_any_target() {
    // a call-free script satisfies every target set, the empty one
    // included
    let no_procs: Vec<Digest> = Vec::new();
    assert!(verify_note_account_compatibility(&CodeBlock::Span, d(0), &no_procs).is_ok());
    let tree = CodeBlock::Join(
        Box::new(CodeBlock::Loop(Box::new(CodeBlock::Span))),
        Box::new(CodeBlock::Split(
            Box::new(CodeBlock::Span),
            Box::new(CodeBlock::Proxy),
        )),
    );
    assert!(verify_note_account_compatibility(&tree, d(0), &no_procs).is_ok());
    assert!(verify_note_account_compatibility(&tree, d(0), &vec![d(7)]).is_ok());
}

#[test]
fn unknown_call_is_rejected_with_script_digest() {
    let root_hash = d(99);
    let tree = CodeBlock::Join(
        Box::new(CodeBlock::Span),
        Box::new(CodeBlock::Call(d(5))),
    );
    let result = verify_note_account_compatibility(&tree, root_hash, &vec![d(6), d(7)]);
    match result {
        Err(TransactionError::NoteIncompatibleWithAccount(h)) => {
            assert_eq!(h, root_hash);
        }
        _ => panic!("expected the incompatibility error carrying the script digest"),
    }
    // the same call accepted once the target set exposes it
    assert!(verify_note_account_compatibility(&tree, root_hash, &vec![d(6), d(5)]).is_ok());
}

#[test]
fn one_admissible_branch_rescues_the_script() {
    let known = d(1);
    let unknown = d(2);
    // one side of the split calls a known procedure, the other an unknown
    // one: the known branch satisfies the subset rule
    let rescued = CodeBlock::Split(
        Box::new(CodeBlock::Call(known)),
        Box::new(CodeBlock::Call(unknown)),
    );
    assert!(verify_note_account_compatibility(&rescued, d(0), &vec![known]).is_ok());

    // both sides calling unknown procedures leave no admissible branch
    let stranded = CodeBlock::Split(
        Box::new(CodeBlock::Call(unknown)),
        Box::new(CodeBlock::Call(d(3))),
    );
    assert!(matches!(
        verify_note_account_compatibility(&stranded, d(0), &vec![known]),
        Err(TransactionError::NoteIncompatibleWithAccount(_))
    ));
}

#[test]
fn branches_fork_only_when_the_false_side_calls() {
    // sequencing appends to the current branch; a split whose false side
    // made calls forks a fresh copy of the pre-split prefix
    let tree = CodeBlock::Join(
        Box::new(CodeBlock::Call(d(1))),
        Box::new(CodeBlock::Split(
            Box::new(CodeBlock::Call(d(2))),
            Box::new(CodeBlock::Call(d(3))),
        )),
    );
    let mut branches: Vec<Vec<Digest>> = vec![Vec::new()];
    collect_call_branches(&tree, &mut branches);
    assert_eq!(branches, vec![vec![d(1), d(3)], vec![d(1), d(2)]]);

    // a split whose false side makes no calls does not fork
    let tree = CodeBlock::Split(Box::new(CodeBlock::Call(d(2))), Box::new(CodeBlock::Span));
    let mut branches: Vec<Vec<Digest>> = vec![Vec::new()];
    collect_call_branches(&tree, &mut branches);
    assert_eq!(branches, vec![vec![d(2)]]);
}

#[test]
fn load_account_records_procedures() {
    let mut compiler = TransactionComplier::new();
    let module = ModuleAst::parse("export.foo\n    add\nend").unwrap();
    let code = compiler.load_account(1, module).unwrap();
    assert_eq!(code.account_id, 1);
    assert_eq!(code.procedures.len(), 1);

    // loading again under the same id overwrites: last write wins
    let module = ModuleAst::parse("export.foo\n    add\nend\nexport.bar\n    mul\nend").unwrap();
    let code = compiler.load_account(1, module).unwrap();
    assert_eq!(code.procedures.len(), 2);
}

#[test]
fn load_account_failure_leaves_table_usable() {
    let mut compiler = TransactionComplier::new();
    // a module that parses but cannot compile: it calls into an imported
    // module this assembler has never been given
    let module =
        ModuleAst::parse("use.miden::sat::account\nexport.foo\n    exec.account::absent\nend")
            .unwrap();
    let result = compiler.load_account(7, module);
    assert!(matches!(result, Err(TransactionError::LoadAccountFailed(_))));
    // the failure leaves the compiler usable and the table unchanged
    let module = ModuleAst::parse("export.foo\n    add\nend").unwrap();
    let code = compiler.load_account(7, module).unwrap();
    assert_eq!(code.procedures.len(), 1);
}

#[test]
fn note_script_compatibility_through_the_assembler() {
    let mut compiler = TransactionComplier::new();
    let module = ModuleAst::parse("export.foo\n    add\nend").unwrap();
    let code = compiler.load_account(1, module).unwrap();
    let target = digest_hex(&code.procedures[0]);

    // a script calling the account's own procedure is accepted
    let source = format!("begin\n    call.{}\nend", &target[..]);
    let ast = ProgramAst::parse(&source).unwrap();
    let script = compiler
        .compile_note_script(ast, &Some(code.procedures.clone()))
        .unwrap();
    let script_hash = script.hash();

    // the same script against a foreign procedure set is rejected, with
    // the script's root digest as the payload
    let ast = ProgramAst::parse(&source).unwrap();
    let result = compiler.compile_note_script(ast, &Some(vec![d(123)]));
    match result {
        Err(TransactionError::NoteIncompatibleWithAccount(h)) => {
            assert_eq!(h, script_hash);
        }
        _ => panic!("expected the incompatibility error"),
    }

    // without a target set the script is accepted unconditionally
    let ast = ProgramAst::parse(&source).unwrap();
    assert!(compiler.compile_note_script(ast, &None).is_ok());

    // a call-free script passes even against an empty target set
    let ast = ProgramAst::parse("begin\n    push.1 drop\nend").unwrap();
    assert!(compiler.compile_note_script(ast, &Some(Vec::new())).is_ok());
}

#[test]
fn note_script_compile_failure_is_reported() {
    let mut compiler = TransactionComplier::new();
    // a script calling a MAST root the assembler has never seen fails to
    // compile, distinctly from a compatibility failure
    let source = format!("begin\n    call.{}\nend", digest_hex(&d(1)));
    let ast = ProgramAst::parse(&source).unwrap();
    assert!(matches!(
        compiler.compile_note_script(ast, &None),
        Err(TransactionError::CompileNoteScriptFailed)
    ));
}

#[test]
fn note_script_compiles_standalone() {
    let assembler = miden_assembly::Assembler::default();
    let ast = ProgramAst::parse("begin\n    push.1 drop\nend").unwrap();
    let script = miden_tx_core::compiler::NoteScript::new(ast, &assembler).unwrap();
    // the script's identity is its root code block's digest
    assert_eq!(script.hash(), script.root_hash);
    assert!(matches!(script.code_block(), CodeBlock::Span | CodeBlock::Join(_, _)));
}

#[test]
fn consumed_note_data_pointers_are_spaced_one_block_apart() {
    assert_eq!(consumed_note_data_ptr(0), CONSUMED_NOTE_SECTION_OFFSET + 1024);
    assert_eq!(consumed_note_data_ptr(3), CONSUMED_NOTE_SECTION_OFFSET + 4 * 1024);
}
