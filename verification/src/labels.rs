//! The first pass: binding every label to a program counter.
//!
//! A label stands for the program counter of the operation that follows it,
//! or for the number of operations where none follows. No name may be
//! declared twice.

use vstd::prelude::*;
use crate::error::AssemblerError;
use crate::span::{same_text, Span};
use crate::statement::{all_fit, all_settled, operations_before, Statement};

verus! {

/// The labels bound by the first `upto` statements, or the first name among
/// them that an earlier one had declared already.
pub open spec fn labels_upto(src: Seq<u8>, statements: Seq<Statement>, upto: int) -> Result<
    Map<Seq<u8>, nat>,
    AssemblerError,
>
    decreases upto,
{
    if upto <= 0 {
        Ok(Map::empty())
    } else {
        match labels_upto(src, statements, upto - 1) {
            Err(e) => Err(e),
            Ok(bound) => match statements[upto - 1] {
                Statement::Label(name) => if bound.contains_key(name.text(src)) {
                    Err(AssemblerError::RedeclaredLabel(name))
                } else {
                    Ok(bound.insert(name.text(src), operations_before(statements, upto - 1)))
                },
                Statement::Operation(_) => Ok(bound),
            },
        }
    }
}

/// The labels of a whole program.
pub open spec fn label_table(src: Seq<u8>, statements: Seq<Statement>) -> Result<
    Map<Seq<u8>, nat>,
    AssemblerError,
> {
    labels_upto(src, statements, statements.len() as int)
}

/// One declared label.
#[derive(Debug, Clone, Copy)]
struct Binding {
    name: Span,
    pc: usize,
}

/// The labels of one program, each with the program counter it stands for.
/// A table refers to the source text that its program was read from.
#[derive(Debug, Clone)]
pub struct LabelTable {
    entries: Vec<Binding>,
}

/// The mapping that a list of bindings over `src` stands for.
spec fn bindings_of(src: Seq<u8>, entries: Seq<Binding>) -> Map<Seq<u8>, nat>
    decreases entries.len(),
{
    if entries.len() == 0 {
        Map::empty()
    } else {
        bindings_of(src, entries.drop_last()).insert(
            entries.last().name.text(src),
            entries.last().pc as nat,
        )
    }
}

impl LabelTable {
    /// The mapping from names to program counters that the table holds when
    /// read against the source text `src`.
    pub closed spec fn bindings(&self, src: Seq<u8>) -> Map<Seq<u8>, nat> {
        bindings_of(src, self.entries@)
    }

    /// Every name of the table lies inside a text of `len` bytes.
    pub closed spec fn fits(&self, len: nat) -> bool {
        forall|i: int| 0 <= i < self.entries@.len() ==> (#[trigger] self.entries@[i]).name.fits(len)
    }

    /// The program counter that the text of `src` at `name` is bound to.
    pub fn find(&self, src: &[u8], name: Span) -> (r: Option<usize>)
        requires
            self.fits(src@.len()),
            name.fits(src@.len()),
        ensures
            match r {
                Some(pc) => self.bindings(src@).contains_key(name.text(src@)) && self.bindings(
                    src@,
                )[name.text(src@)] == pc,
                None => !self.bindings(src@).contains_key(name.text(src@)),
            },
    {
        let ghost key = name.text(src@);
        let mut i: usize = self.entries.len();
        assert(self.entries@.take(i as int) =~= self.entries@);
        while i > 0
            invariant
                i <= self.entries@.len(),
                self.fits(src@.len()),
                name.fits(src@.len()),
                key == name.text(src@),
                self.bindings(src@).contains_key(key) == bindings_of(
                    src@,
                    self.entries@.take(i as int),
                ).contains_key(key),
                self.bindings(src@).contains_key(key) ==> self.bindings(src@)[key] == bindings_of(
                    src@,
                    self.entries@.take(i as int),
                )[key],
            decreases i,
        {
            i -= 1;
            assert(self.entries@.take(i + 1).drop_last() =~= self.entries@.take(i as int));
            let entry_name = self.entries[i].name;
            assert(self.entries@[i as int].name.fits(src@.len()));
            if same_text(src, entry_name, name) {
                return Some(self.entries[i].pc);
            }
        }
        None
    }
}

/// Runs the first pass over `statements`, which were read from `src`.
///
/// Fails with `RedeclaredLabel` at the first declaration of a name that an
/// earlier statement has declared, whether or not any jump refers to it.
pub fn bind_labels(src: &[u8], statements: &[Statement]) -> (r: Result<LabelTable, AssemblerError>)
    requires
        all_fit(statements@, src@.len()),
    ensures
        match r {
            Ok(table) => table.fits(src@.len()) && label_table(src@, statements@) == Ok::<
                Map<Seq<u8>, nat>,
                AssemblerError,
            >(table.bindings(src@)),
            Err(e) => label_table(src@, statements@) == Err::<Map<Seq<u8>, nat>, AssemblerError>(e),
        },
        all_settled(statements@, src@) ==> (r matches Err(e) ==> e.settled(src@)),
{
    let mut table = LabelTable { entries: Vec::new() };
    let mut pc: usize = 0;
    let mut i: usize = 0;
    while i < statements.len()
        invariant
            i <= statements@.len(),
            all_fit(statements@, src@.len()),
            table.fits(src@.len()),
            pc == operations_before(statements@, i as int),
            pc <= i,
            labels_upto(src@, statements@, i as int) == Ok::<Map<Seq<u8>, nat>, AssemblerError>(
                table.bindings(src@),
            ),
        decreases statements@.len() - i,
    {
        assert(statements@[i as int].fits(src@.len()));
        match statements[i] {
            Statement::Label(name) => {
                if table.find(src, name).is_some() {
                    proof {
                        lemma_error_stays(src@, statements@, i + 1, statements@.len() as int);
                    }
                    return Err(AssemblerError::RedeclaredLabel(name));
                }
                let ghost before = table.entries@;
                table.entries.push(Binding { name, pc });
                assert(table.entries@.drop_last() =~= before);
            },
            Statement::Operation(_) => {
                pc += 1;
            },
        }
        i += 1;
    }
    Ok(table)
}

/// Once a prefix of a program fails the first pass, every longer prefix
/// fails it in the same way.
pub proof fn lemma_error_stays(src: Seq<u8>, statements: Seq<Statement>, from: int, upto: int)
    requires
        from <= upto,
        labels_upto(src, statements, from) is Err,
    ensures
        labels_upto(src, statements, upto) == labels_upto(src, statements, from),
    decreases upto - from,
{
    if from < upto {
        lemma_error_stays(src, statements, from, upto - 1);
    }
}

} // verus!
