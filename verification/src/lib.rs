//! Kernel logic of a small x86-64 hobby operating system: frame allocation,
//! page-table entries, segment and interrupt descriptors, scheduling, timers,
//! the FAT volume reader, the terminal's line handling and the window system's
//! drawing primitives.

pub mod acpi;
pub mod app_event;
pub mod c_str;
pub mod console;
pub mod elf;
pub mod error;
pub mod fat;
pub mod file_descriptor;
pub mod font;
pub mod frame_buffer;
pub mod graphics;
pub mod interrupt;
pub mod io;
pub mod keyboard;
pub mod main_loop;
pub mod layer;
pub mod bits;
pub mod memory_manager;
pub mod mouse;
pub mod message;
pub mod paging;
pub mod pci;
pub mod queue;
pub mod segment;
pub mod shared;
pub mod syscall;
pub mod task;
pub mod terminal;
pub mod terminal_writer;
pub mod timer;
pub mod window;
pub mod x86_descriptor;

use vstd::prelude::*;
use vstd::string::StringSliceAdditionalSpecFns;

verus! {

#[verifier::external_type_specification]
#[verifier::external_body]
pub struct ExUtf8Error(core::str::Utf8Error);

/// `core::str::from_utf8`: the text that `bytes` encode when they are valid
/// UTF-8, else an error.
#[verifier::external_body]
pub(crate) fn str_from_utf8(bytes: &[u8]) -> (r: Result<&str, core::str::Utf8Error>)
    ensures
        r is Ok <==> vstd::utf8::valid_utf8(bytes@),
        r matches Ok(s) ==> s@ == vstd::utf8::decode_utf8(bytes@) && s.spec_bytes() == bytes@,
{
    core::str::from_utf8(bytes)
}

/// The bytes of `buf` before its first zero byte (all of them when it has none).
pub open spec fn before_nul(buf: Seq<u8>) -> Seq<u8> {
    buf.take(fat::first_zero_from(buf, 0) as int)
}

/// The text in `buf` up to its first zero byte; an error when those bytes
/// are not valid UTF-8.
pub fn str_trimming_nul(buf: &[u8]) -> (r: Result<&str, core::str::Utf8Error>)
    ensures
        r is Ok <==> vstd::utf8::valid_utf8(before_nul(buf@)),
        r matches Ok(s) ==> s@ == vstd::utf8::decode_utf8(before_nul(buf@)) && s.spec_bytes() == before_nul(buf@),
{
    let n: usize = buf.len();
    let mut i: usize = 0;
    proof {
        fat::lemma_first_zero_from(buf@, 0);
    }
    while i < n && buf[i] != 0
        invariant
            i <= n,
            n == buf@.len(),
            fat::first_zero_from(buf@, i as nat) == fat::first_zero_from(buf@, 0),
        decreases n - i,
    {
        i += 1;
    }
    let head: &[u8] = vstd::slice::slice_subrange(buf, 0, i);
    assert(head@ =~= before_nul(buf@));
    str_from_utf8(head)
}

/// The text in `buf` up to its first zero byte, which must be valid UTF-8.
pub fn str_trimming_nul_unchecked(buf: &[u8]) -> (s: &str)
    requires
        vstd::utf8::valid_utf8(before_nul(buf@)),
    ensures
        s@ == vstd::utf8::decode_utf8(before_nul(buf@)),
{
    match str_trimming_nul(buf) {
        Ok(s) => s,
        Err(_) => {
            proof {
                assert(false);
            }
            ""
        },
    }
}

} // verus!
