//! What holds of every program, proved from the definitions of the two
//! passes.

use vstd::prelude::*;
use vstd::string::StringSliceAdditionalSpecFns;
use crate::assembler::{assemble_spec, assemble_statements_spec, yields};
use crate::encoder::{
    displacement, encode_spec, encode_upto, lemma_encode_error_stays, source_value,
};
use crate::error::AssemblerError;
use crate::extensions::{linux_table, linux_table_codes};
use crate::instruction::Instruction;
use crate::integer::evaluate_spec;
use crate::labels::{label_table, labels_upto, lemma_error_stays};
use crate::parser::program;
use crate::span::Span;
use crate::statement::{
    operations_before, CopOperand, LoadOperand, Operation, PacketOperand, Statement,
};

verus! {

/// Some statement of the program declares the label `name`.
pub open spec fn declared(src: Seq<u8>, statements: Seq<Statement>, name: Seq<u8>) -> bool {
    exists|i: int| 0 <= i < statements.len() && (#[trigger] statements[i]).declares(src, name)
}

/// Some statement of the program names the label `name` as a jump target.
pub open spec fn referenced(src: Seq<u8>, statements: Seq<Statement>, name: Seq<u8>) -> bool {
    exists|i: int| 0 <= i < statements.len() && (#[trigger] statements[i]).refers_to(src, name)
}

/// Two runs of the assembler on the same text and the same table end alike:
/// with the same instructions in the same order, or with the same error.
pub proof fn assemble_is_deterministic(
    src: Seq<u8>,
    extensions: Map<Seq<u8>, u32>,
    first: Result<Vec<Instruction>, AssemblerError>,
    second: Result<Vec<Instruction>, AssemblerError>,
)
    requires
        yields(first, assemble_spec(src, extensions)),
        yields(second, assemble_spec(src, extensions)),
    ensures
        match (first, second) {
            (Ok(a), Ok(b)) => a@ == b@,
            (Err(a), Err(b)) => a == b,
            _ => false,
        },
{
}

/// The first pass fails in one way only.
proof fn lemma_only_redeclarations_fail(src: Seq<u8>, statements: Seq<Statement>, upto: int)
    ensures
        labels_upto(src, statements, upto) matches Err(e) ==> e is RedeclaredLabel,
    decreases upto,
{
    if upto > 0 {
        lemma_only_redeclarations_fail(src, statements, upto - 1);
    }
}

/// The names that the first pass has bound after `upto` statements are the
/// names that those statements declare, and each is bound to the number of
/// operations before its declaration.
proof fn lemma_bound_names(src: Seq<u8>, statements: Seq<Statement>, upto: int)
    requires
        0 <= upto <= statements.len(),
    ensures
        labels_upto(src, statements, upto) matches Ok(bound) ==> {
            &&& forall|name: Seq<u8>|
                bound.contains_key(name) ==> exists|i: int|
                    0 <= i < upto && (#[trigger] statements[i]).declares(src, name)
                        && bound[name] == operations_before(statements, i)
            &&& forall|i: int, name: Seq<u8>|
                0 <= i < upto && #[trigger] statements[i].declares(src, name)
                    ==> bound.contains_key(name) && bound[name] == operations_before(
                    statements,
                    i,
                )
        },
    decreases upto,
{
    if upto > 0 {
        lemma_bound_names(src, statements, upto - 1);
        match labels_upto(src, statements, upto) {
            Ok(bound) => {
                let before = labels_upto(src, statements, upto - 1)->Ok_0;
                assert forall|name: Seq<u8>| bound.contains_key(name) implies exists|i: int|
                    0 <= i < upto && (#[trigger] statements[i]).declares(src, name)
                        && bound[name] == operations_before(statements, i) by {
                    if before.contains_key(name) {
                        let i = choose|i: int|
                            0 <= i < upto - 1 && (#[trigger] statements[i]).declares(src, name)
                                && before[name] == operations_before(statements, i);
                        assert(statements[i].declares(src, name));
                    } else {
                        assert(statements[upto - 1].declares(src, name));
                    }
                }
            },
            Err(_) => {},
        }
    }
}

/// The first pass fails on a program that declares a name twice.
proof fn lemma_redeclaration_fails(
    src: Seq<u8>,
    statements: Seq<Statement>,
    first: int,
    second: int,
    name: Seq<u8>,
)
    requires
        0 <= first < second < statements.len(),
        statements[first].declares(src, name),
        statements[second].declares(src, name),
    ensures
        label_table(src, statements) matches Err(e) && e is RedeclaredLabel,
{
    lemma_bound_names(src, statements, second);
    assert(labels_upto(src, statements, second + 1) is Err);
    lemma_error_stays(src, statements, second + 1, statements.len() as int);
    lemma_only_redeclarations_fail(src, statements, statements.len() as int);
}

/// Two label declarations that share a name make the program fail with
/// `RedeclaredLabel`, wherever they stand and whether or not any jump refers
/// to the name.
pub proof fn redeclared_label_fails(
    src: Seq<u8>,
    statements: Seq<Statement>,
    extensions: Map<Seq<u8>, u32>,
    first: int,
    second: int,
    name: Seq<u8>,
)
    requires
        0 <= first < second < statements.len(),
        statements[first].declares(src, name),
        statements[second].declares(src, name),
    ensures
        assemble_statements_spec(src, statements, extensions) matches Err(e) && e
            is RedeclaredLabel,
        program(src) == Ok::<Seq<Statement>, AssemblerError>(statements) ==> (assemble_spec(
            src,
            extensions,
        ) matches Err(e) && e is RedeclaredLabel),
{
    lemma_redeclaration_fails(src, statements, first, second, name);
}

/// A program that the first pass accepts declares no name twice, and binds
/// every label to the program counter of the operation that follows it: the
/// number of operations before the declaration.
pub proof fn labels_bind_the_next_operation(
    src: Seq<u8>,
    statements: Seq<Statement>,
    at: int,
    name: Seq<u8>,
)
    requires
        0 <= at < statements.len(),
        statements[at].declares(src, name),
        label_table(src, statements) is Ok,
    ensures
        label_table(src, statements)->Ok_0.contains_key(name),
        label_table(src, statements)->Ok_0[name] == operations_before(statements, at),
        forall|other: int|
            0 <= other < statements.len() && other != at ==> !(#[trigger] statements[other]).declares(
                src,
                name,
            ),
{
    lemma_bound_names(src, statements, statements.len() as int);
    assert forall|other: int| 0 <= other < statements.len() && other != at implies !(
    #[trigger] statements[other]).declares(src, name) by {
        if statements[other].declares(src, name) {
            if other < at {
                lemma_redeclaration_fails(src, statements, other, at, name);
            } else {
                lemma_redeclaration_fails(src, statements, at, other, name);
            }
        }
    }
}

/// The program with a declaration of the label at `label` put in before the
/// statement at index `at`.
pub open spec fn with_label(statements: Seq<Statement>, at: int, label: Span) -> Seq<Statement> {
    statements.insert(at, Statement::Label(label))
}

/// The outcome of the first pass with one more name bound.
pub open spec fn also_bound(
    labels: Result<Map<Seq<u8>, nat>, AssemblerError>,
    name: Seq<u8>,
    pc: nat,
) -> Result<Map<Seq<u8>, nat>, AssemblerError> {
    match labels {
        Ok(bound) => Ok(bound.insert(name, pc)),
        Err(e) => Err(e),
    }
}

/// A label declaration takes no slot: it leaves the program counter of every
/// other statement as it was.
proof fn lemma_counts_with_label(
    statements: Seq<Statement>,
    at: int,
    label: Span,
    upto: int,
)
    requires
        0 <= at <= statements.len(),
        0 <= upto <= statements.len(),
    ensures
        upto <= at ==> operations_before(with_label(statements, at, label), upto)
            == operations_before(statements, upto),
        upto >= at ==> operations_before(with_label(statements, at, label), upto + 1)
            == operations_before(statements, upto),
    decreases upto,
{
    let with = with_label(statements, at, label);
    if upto > 0 {
        lemma_counts_with_label(statements, at, label, upto - 1);
        if upto <= at {
            assert(with[upto - 1] == statements[upto - 1]);
        } else {
            assert(with[upto] == statements[upto - 1]);
        }
    }
    if upto == at {
        assert(with[at] == Statement::Label(label));
    }
}

/// The first pass over a program with one more label, of a name that the
/// program does not declare, binds that name too and is otherwise as before.
proof fn lemma_labels_with_label(
    src: Seq<u8>,
    statements: Seq<Statement>,
    at: int,
    label: Span,
    upto: int,
)
    requires
        0 <= at <= statements.len(),
        0 <= upto <= statements.len(),
        !declared(src, statements, label.text(src)),
    ensures
        upto <= at ==> labels_upto(src, with_label(statements, at, label), upto) == labels_upto(
            src,
            statements,
            upto,
        ),
        upto >= at ==> labels_upto(src, with_label(statements, at, label), upto + 1) == also_bound(
            labels_upto(src, statements, upto),
            label.text(src),
            operations_before(statements, at),
        ),
    decreases upto,
{
    let with = with_label(statements, at, label);
    let name = label.text(src);
    if upto > 0 {
        lemma_labels_with_label(src, statements, at, label, upto - 1);
        lemma_counts_with_label(statements, at, label, upto - 1);
        if upto <= at {
            assert(with[upto - 1] == statements[upto - 1]);
        } else {
            assert(with[upto] == statements[upto - 1]);
            assert(!statements[upto - 1].declares(src, name));
            match labels_upto(src, statements, upto - 1) {
                Ok(bound) => {
                    match statements[upto - 1] {
                        Statement::Label(other) => {
                            let t = other.text(src);
                            let v = operations_before(statements, upto - 1);
                            let c = operations_before(statements, at);
                            assert(bound.insert(name, c).insert(t, v) =~= bound.insert(t, v).insert(
                                name,
                                c,
                            ));
                        },
                        Statement::Operation(_) => {},
                    }
                },
                Err(_) => {},
            }
        }
    }
    if upto == at {
        assert(with[at] == Statement::Label(label));
        lemma_counts_with_label(statements, at, label, at);
        lemma_bound_names(src, statements, at);
        match labels_upto(src, statements, at) {
            Ok(bound) => {
                if bound.contains_key(name) {
                    let i = choose|i: int|
                        0 <= i < at && (#[trigger] statements[i]).declares(src, name);
                    assert(declared(src, statements, name));
                }
            },
            Err(_) => {},
        }
    }
}

/// An operation that does not refer to a name is encoded the same whatever
/// the name is bound to.
proof fn lemma_encode_ignores_unused(
    src: Seq<u8>,
    operation: Operation,
    pc: nat,
    labels: Map<Seq<u8>, nat>,
    extensions: Map<Seq<u8>, u32>,
    name: Seq<u8>,
    bound_to: nat,
)
    requires
        !operation.refers_to(src, name),
    ensures
        encode_spec(src, operation, pc, labels.insert(name, bound_to), extensions) == encode_spec(
            src,
            operation,
            pc,
            labels,
            extensions,
        ),
{
}

/// The second pass over a program with one more label, of a name that no
/// jump refers to, gives what it gave before.
proof fn lemma_encode_with_label(
    src: Seq<u8>,
    statements: Seq<Statement>,
    at: int,
    label: Span,
    labels: Map<Seq<u8>, nat>,
    bound_to: nat,
    extensions: Map<Seq<u8>, u32>,
    upto: int,
)
    requires
        0 <= at <= statements.len(),
        0 <= upto <= statements.len(),
        !referenced(src, statements, label.text(src)),
    ensures
        upto <= at ==> encode_upto(
            src,
            with_label(statements, at, label),
            labels.insert(label.text(src), bound_to),
            extensions,
            upto,
        ) == encode_upto(src, statements, labels, extensions, upto),
        upto >= at ==> encode_upto(
            src,
            with_label(statements, at, label),
            labels.insert(label.text(src), bound_to),
            extensions,
            upto + 1,
        ) == encode_upto(src, statements, labels, extensions, upto),
    decreases upto,
{
    let with = with_label(statements, at, label);
    let name = label.text(src);
    if upto > 0 {
        lemma_encode_with_label(src, statements, at, label, labels, bound_to, extensions, upto - 1);
        lemma_counts_with_label(statements, at, label, upto - 1);
        assert(!statements[upto - 1].refers_to(src, name));
        match statements[upto - 1] {
            Statement::Operation(operation) => {
                lemma_encode_ignores_unused(
                    src,
                    operation,
                    operations_before(statements, upto - 1),
                    labels,
                    extensions,
                    name,
                    bound_to,
                );
            },
            Statement::Label(_) => {},
        }
        if upto <= at {
            assert(with[upto - 1] == statements[upto - 1]);
        } else {
            assert(with[upto] == statements[upto - 1]);
        }
    }
    if upto == at {
        assert(with[at] == Statement::Label(label));
    }
}

/// Putting in a declaration of a label that no jump refers to changes
/// nothing of what a program assembles to: not the program counter of any
/// instruction, nor its code, nor its operands.
///
/// Where the name is new to the program the outcome is the same altogether,
/// error or not. Where the program had the name already, the program with
/// the second declaration does not assemble.
pub proof fn unused_label_is_transparent(
    src: Seq<u8>,
    statements: Seq<Statement>,
    extensions: Map<Seq<u8>, u32>,
    at: int,
    label: Span,
)
    requires
        0 <= at <= statements.len(),
        !referenced(src, statements, label.text(src)),
    ensures
        !declared(src, statements, label.text(src)) ==> assemble_statements_spec(
            src,
            with_label(statements, at, label),
            extensions,
        ) == assemble_statements_spec(src, statements, extensions),
        assemble_statements_spec(src, with_label(statements, at, label), extensions) is Ok
            ==> assemble_statements_spec(src, with_label(statements, at, label), extensions)
            == assemble_statements_spec(src, statements, extensions),
{
    let with = with_label(statements, at, label);
    let name = label.text(src);
    let n = statements.len() as int;
    assert(with.len() == n + 1);
    assert(with[at] == Statement::Label(label));
    if declared(src, statements, name) {
        let i = choose|i: int| 0 <= i < n && (#[trigger] statements[i]).declares(src, name);
        if i < at {
            assert(with[i] == statements[i]);
            lemma_redeclaration_fails(src, with, i, at, name);
        } else {
            assert(with[i + 1] == statements[i]);
            lemma_redeclaration_fails(src, with, at, i + 1, name);
        }
    } else {
        lemma_labels_with_label(src, statements, at, label, n);
        match label_table(src, statements) {
            Ok(labels) => {
                lemma_encode_with_label(
                    src,
                    statements,
                    at,
                    label,
                    labels,
                    operations_before(statements, at),
                    extensions,
                    n,
                );
            },
            Err(_) => {},
        }
    }
}

/// The second pass gives one instruction for every operation it has met.
proof fn lemma_output_length(
    src: Seq<u8>,
    statements: Seq<Statement>,
    labels: Map<Seq<u8>, nat>,
    extensions: Map<Seq<u8>, u32>,
    upto: int,
)
    requires
        encode_upto(src, statements, labels, extensions, upto) is Ok,
    ensures
        encode_upto(src, statements, labels, extensions, upto)->Ok_0.len() == operations_before(
            statements,
            upto,
        ),
    decreases upto,
{
    if upto > 0 {
        lemma_output_length(src, statements, labels, extensions, upto - 1);
    }
}

/// What the second pass has given for a shorter prefix of a program stays
/// where it is when the pass goes on.
proof fn lemma_output_stays(
    src: Seq<u8>,
    statements: Seq<Statement>,
    labels: Map<Seq<u8>, nat>,
    extensions: Map<Seq<u8>, u32>,
    from: int,
    upto: int,
)
    requires
        from <= upto,
        encode_upto(src, statements, labels, extensions, upto) is Ok,
    ensures
        encode_upto(src, statements, labels, extensions, from) is Ok,
        encode_upto(src, statements, labels, extensions, from)->Ok_0.len() <= encode_upto(
            src,
            statements,
            labels,
            extensions,
            upto,
        )->Ok_0.len(),
        forall|k: int|
            0 <= k < encode_upto(src, statements, labels, extensions, from)->Ok_0.len()
                ==> encode_upto(src, statements, labels, extensions, upto)->Ok_0[k] == encode_upto(
                src,
                statements,
                labels,
                extensions,
                from,
            )->Ok_0[k],
    decreases upto - from,
{
    if from < upto {
        let shorter = encode_upto(src, statements, labels, extensions, upto - 1);
        assert(shorter is Ok);
        lemma_output_stays(src, statements, labels, extensions, from, upto - 1);
    }
}

/// In a program that the second pass accepts, the instruction at the
/// program counter of an operation is the encoding of that operation.
proof fn lemma_instruction_of_each_operation(
    src: Seq<u8>,
    statements: Seq<Statement>,
    labels: Map<Seq<u8>, nat>,
    extensions: Map<Seq<u8>, u32>,
    at: int,
    upto: int,
)
    requires
        0 <= at < upto,
        statements[at] is Operation,
        encode_upto(src, statements, labels, extensions, upto) is Ok,
    ensures
        operations_before(statements, at) < encode_upto(
            src,
            statements,
            labels,
            extensions,
            upto,
        )->Ok_0.len(),
        encode_spec(
            src,
            statements[at]->Operation_0,
            operations_before(statements, at),
            labels,
            extensions,
        ) == Ok::<Instruction, AssemblerError>(
            encode_upto(src, statements, labels, extensions, upto)->Ok_0[operations_before(
                statements,
                at,
            ) as int],
        ),
{
    lemma_output_stays(src, statements, labels, extensions, at + 1, upto);
    lemma_output_stays(src, statements, labels, extensions, at, at + 1);
    lemma_output_length(src, statements, labels, extensions, at);
    lemma_output_length(src, statements, labels, extensions, at + 1);
    let before = encode_upto(src, statements, labels, extensions, at)->Ok_0;
    let pc = operations_before(statements, at);
    let encoded = encode_spec(src, statements[at]->Operation_0, pc, labels, extensions);
    assert(encoded is Ok);
    assert(encode_upto(src, statements, labels, extensions, at + 1)->Ok_0 == before.push(
        encoded->Ok_0,
    ));
    assert(before.push(encoded->Ok_0)[pc as int] == encoded->Ok_0);
}

/// A program that assembles yields one instruction for every operation, in
/// the order of the operations: the instruction at a program counter is the
/// encoding of the operation that stands there.
pub proof fn instructions_follow_the_operations(
    src: Seq<u8>,
    statements: Seq<Statement>,
    extensions: Map<Seq<u8>, u32>,
    at: int,
)
    requires
        0 <= at < statements.len(),
        statements[at] is Operation,
        assemble_statements_spec(src, statements, extensions) is Ok,
    ensures
        assemble_statements_spec(src, statements, extensions)->Ok_0.len() == operations_before(
            statements,
            statements.len() as int,
        ),
        operations_before(statements, at) < operations_before(statements, statements.len() as int),
        encode_spec(
            src,
            statements[at]->Operation_0,
            operations_before(statements, at),
            label_table(src, statements)->Ok_0,
            extensions,
        ) == Ok::<Instruction, AssemblerError>(
            assemble_statements_spec(src, statements, extensions)->Ok_0[operations_before(
                statements,
                at,
            ) as int],
        ),
{
    let labels = label_table(src, statements)->Ok_0;
    lemma_instruction_of_each_operation(
        src,
        statements,
        labels,
        extensions,
        at,
        statements.len() as int,
    );
    lemma_output_length(src, statements, labels, extensions, statements.len() as int);
}

/// An operation that refers to a label is encoded only where the label is
/// declared and lies after the operation.
proof fn lemma_jump_needs_a_later_label(
    src: Seq<u8>,
    operation: Operation,
    pc: nat,
    labels: Map<Seq<u8>, nat>,
    extensions: Map<Seq<u8>, u32>,
    name: Seq<u8>,
)
    requires
        operation.refers_to(src, name),
        encode_spec(src, operation, pc, labels, extensions) is Ok,
    ensures
        labels.contains_key(name),
        labels[name] > pc,
{
}

/// A program in which some jump names a label that is bound to the jump's
/// own program counter, or to an earlier one, does not assemble.
pub proof fn backward_jump_fails(
    src: Seq<u8>,
    statements: Seq<Statement>,
    extensions: Map<Seq<u8>, u32>,
    jump: int,
    name: Seq<u8>,
)
    requires
        0 <= jump < statements.len(),
        statements[jump].refers_to(src, name),
        label_table(src, statements) matches Ok(labels) ==> labels.contains_key(name)
            && labels[name] <= operations_before(statements, jump),
    ensures
        assemble_statements_spec(src, statements, extensions) is Err,
        program(src) == Ok::<Seq<Statement>, AssemblerError>(statements) ==> assemble_spec(
            src,
            extensions,
        ) is Err,
{
    match label_table(src, statements) {
        Ok(labels) => {
            if encode_upto(src, statements, labels, extensions, statements.len() as int) is Ok {
                lemma_instruction_of_each_operation(
                    src,
                    statements,
                    labels,
                    extensions,
                    jump,
                    statements.len() as int,
                );
                lemma_jump_needs_a_later_label(
                    src,
                    statements[jump]->Operation_0,
                    operations_before(statements, jump),
                    labels,
                    extensions,
                    name,
                );
            }
        },
        Err(_) => {},
    }
}

/// A program in which a jump names a label that is declared before the jump
/// does not assemble.
pub proof fn jump_to_earlier_label_fails(
    src: Seq<u8>,
    statements: Seq<Statement>,
    extensions: Map<Seq<u8>, u32>,
    label: int,
    jump: int,
    name: Seq<u8>,
)
    requires
        0 <= label < jump < statements.len(),
        statements[label].declares(src, name),
        statements[jump].refers_to(src, name),
    ensures
        assemble_statements_spec(src, statements, extensions) is Err,
        program(src) == Ok::<Seq<Statement>, AssemblerError>(statements) ==> assemble_spec(
            src,
            extensions,
        ) is Err,
{
    if label_table(src, statements) is Ok {
        labels_bind_the_next_operation(src, statements, label, name);
        lemma_counts_grow(statements, label, jump);
        backward_jump_fails(src, statements, extensions, jump, name);
    }
}

/// Later statements have no smaller a program counter.
proof fn lemma_counts_grow(statements: Seq<Statement>, from: int, upto: int)
    requires
        from <= upto,
    ensures
        operations_before(statements, from) <= operations_before(statements, upto),
    decreases upto - from,
{
    if from < upto {
        lemma_counts_grow(statements, from, upto - 1);
    }
}

/// Encoding `operation` at `pc` gets as far as resolving the jump target at
/// `target`: its operand, if it has one, is a valid literal, and a target
/// that comes first resolves.
pub open spec fn resolves_upto(
    src: Seq<u8>,
    operation: Operation,
    pc: nat,
    labels: Map<Seq<u8>, nat>,
    target: Span,
) -> bool {
    match operation {
        Operation::Jmp(t) => t == target,
        Operation::Jump(_, value, on_true, on_false) => source_value(src, value) is Ok && (on_true
            == target || (displacement(src, labels, on_true, pc) is Ok && on_false == target)),
        Operation::JumpIf(_, value, t) => source_value(src, value) is Ok && t == target,
        Operation::JumpUnless(_, value, t) => source_value(src, value) is Ok && t == target,
        _ => false,
    }
}

/// A jump whose target is bound to the jump's own program counter, or to an
/// earlier one, makes the program fail with `UnreachableLabel` at that
/// target, provided that nothing fails before the target is resolved: the
/// labels are declared once, the operations before the jump encode, and so
/// does what the jump holds before the target.
pub proof fn backward_jump_is_unreachable(
    src: Seq<u8>,
    statements: Seq<Statement>,
    extensions: Map<Seq<u8>, u32>,
    jump: int,
    target: Span,
)
    requires
        0 <= jump < statements.len(),
        label_table(src, statements) is Ok,
        statements[jump] is Operation,
        resolves_upto(
            src,
            statements[jump]->Operation_0,
            operations_before(statements, jump),
            label_table(src, statements)->Ok_0,
            target,
        ),
        encode_upto(src, statements, label_table(src, statements)->Ok_0, extensions, jump) is Ok,
        label_table(src, statements)->Ok_0.contains_key(target.text(src)),
        label_table(src, statements)->Ok_0[target.text(src)] <= operations_before(statements, jump),
    ensures
        assemble_statements_spec(src, statements, extensions) == Err::<
            Seq<Instruction>,
            AssemblerError,
        >(AssemblerError::UnreachableLabel(target)),
        program(src) == Ok::<Seq<Statement>, AssemblerError>(statements) ==> assemble_spec(
            src,
            extensions,
        ) == Err::<Seq<Instruction>, AssemblerError>(AssemblerError::UnreachableLabel(target)),
{
    let labels = label_table(src, statements)->Ok_0;
    assert(encode_upto(src, statements, labels, extensions, jump + 1) == Err::<
        Seq<Instruction>,
        AssemblerError,
    >(AssemblerError::UnreachableLabel(target)));
    lemma_encode_error_stays(src, statements, labels, extensions, jump + 1, statements.len() as int);
}

/// A jump in a program that assembles goes forward: its target is declared,
/// and bound to a program counter after the jump's own.
pub proof fn assembled_jumps_go_forward(
    src: Seq<u8>,
    statements: Seq<Statement>,
    extensions: Map<Seq<u8>, u32>,
    jump: int,
    name: Seq<u8>,
)
    requires
        0 <= jump < statements.len(),
        statements[jump].refers_to(src, name),
        assemble_statements_spec(src, statements, extensions) is Ok,
    ensures
        label_table(src, statements)->Ok_0.contains_key(name),
        label_table(src, statements)->Ok_0[name] > operations_before(statements, jump),
{
    let labels = label_table(src, statements)->Ok_0;
    lemma_instruction_of_each_operation(
        src,
        statements,
        labels,
        extensions,
        jump,
        statements.len() as int,
    );
    lemma_jump_needs_a_later_label(
        src,
        statements[jump]->Operation_0,
        operations_before(statements, jump),
        labels,
        extensions,
        name,
    );
}

/// A load of a named extension is the load from the packet offset that the
/// table holds for the name, and `cop` with a name is `cop` with the
/// immediate that the table holds for it.
pub proof fn extension_stands_for_its_code(
    src: Seq<u8>,
    name: Span,
    literal: Span,
    pc: nat,
    labels: Map<Seq<u8>, nat>,
    extensions: Map<Seq<u8>, u32>,
)
    requires
        extensions.contains_key(name.text(src)),
        evaluate_spec(src, literal) == Ok::<u32, AssemblerError>(extensions[name.text(src)]),
    ensures
        encode_spec(src, Operation::Ld(LoadOperand::Extension(name)), pc, labels, extensions)
            == encode_spec(
            src,
            Operation::Ld(LoadOperand::PacketOffset(literal)),
            pc,
            labels,
            extensions,
        ),
        encode_spec(src, Operation::Ldh(PacketOperand::Extension(name)), pc, labels, extensions)
            == encode_spec(
            src,
            Operation::Ldh(PacketOperand::PacketOffset(literal)),
            pc,
            labels,
            extensions,
        ),
        encode_spec(src, Operation::Ldb(PacketOperand::Extension(name)), pc, labels, extensions)
            == encode_spec(
            src,
            Operation::Ldb(PacketOperand::PacketOffset(literal)),
            pc,
            labels,
            extensions,
        ),
        encode_spec(src, Operation::Cop(CopOperand::Extension(name)), pc, labels, extensions)
            == encode_spec(
            src,
            Operation::Cop(CopOperand::Immediate(literal)),
            pc,
            labels,
            extensions,
        ),
{
}

/// With the Linux table, a load of the protocol, under either of its names,
/// is the load from packet offset `0xFFFFF000`, and a load of the payload
/// offset is the load from packet offset `0xFFFFF034`.
pub proof fn linux_extension_is_its_offset(
    src: Seq<u8>,
    name: Span,
    literal: Span,
    pc: nat,
    labels: Map<Seq<u8>, nat>,
)
    requires
        ({
            ||| (name.text(src) == "proto".spec_bytes() || name.text(src) == "pto".spec_bytes())
                && evaluate_spec(src, literal) == Ok::<u32, AssemblerError>(0xFFFFF000u32)
            ||| name.text(src) == "poff".spec_bytes() && evaluate_spec(src, literal) == Ok::<
                u32,
                AssemblerError,
            >(0xFFFFF034u32)
        }),
    ensures
        encode_spec(src, Operation::Ld(LoadOperand::Extension(name)), pc, labels, linux_table())
            == encode_spec(
            src,
            Operation::Ld(LoadOperand::PacketOffset(literal)),
            pc,
            labels,
            linux_table(),
        ),
        encode_spec(src, Operation::Ld(LoadOperand::Extension(name)), pc, labels, linux_table())
            is Ok,
{
    linux_table_codes();
    extension_stands_for_its_code(src, name, literal, pc, labels, linux_table());
}

} // verus!
