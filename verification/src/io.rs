use crate::fat::FatFileDescriptor;
use crate::file_descriptor::{PipeDescriptor, TerminalFileDescriptor};
use vstd::prelude::*;

verus! {

/// The descriptor number of a task's standard input.
pub const STD_IN: usize = 0;

/// The descriptor number of a task's standard output.
pub const STD_OUT: usize = 1;

/// The descriptor number of a task's standard error.
pub const STD_ERR: usize = 2;

/// A file that a task has open: a file of the boot volume, a terminal, or
/// one end of a pipe.
pub enum FileDescriptor {
    Fat(FatFileDescriptor),
    Terminal(TerminalFileDescriptor),
    Pipe(PipeDescriptor),
}

/// The index of the first free slot of `files` from `k` on, or its length
/// when every slot is taken.
pub open spec fn first_free_slot(files: Seq<Option<FileDescriptor>>, k: nat) -> nat
    decreases files.len() - k,
{
    if k >= files.len() {
        files.len()
    } else if files[k as int] is None {
        k
    } else {
        first_free_slot(files, k + 1)
    }
}

pub proof fn lemma_first_free_slot(files: Seq<Option<FileDescriptor>>, k: nat)
    requires
        k <= files.len(),
    ensures
        k <= first_free_slot(files, k) <= files.len(),
        forall|j: int| k <= j < first_free_slot(files, k) ==> files[j] is Some,
        first_free_slot(files, k) < files.len() ==> files[first_free_slot(files, k) as int] is None,
    decreases files.len() - k,
{
    if k < files.len() && files[k as int] is Some {
        lemma_first_free_slot(files, k + 1);
    }
}

/// The file table after registering `fd`: in the first free slot, or in a
/// new slot at the end.
pub open spec fn with_registered(files: Seq<Option<FileDescriptor>>, fd: FileDescriptor) -> Seq<Option<FileDescriptor>> {
    let i = first_free_slot(files, 0);
    if i < files.len() {
        files.update(i as int, Some(fd))
    } else {
        files.push(Some(fd))
    }
}

} // verus!
