//! The firmware-upload endpoint of the first firmware: a multipart body whose
//! header lines are skipped before the image is written.

use vstd::prelude::*;

verus! {

/// The index of the first newline in `chunk`, or its length if it has none.
pub open spec fn first_newline(chunk: Seq<u8>) -> int
    decreases chunk.len(),
{
    if chunk.len() == 0 {
        0
    } else if chunk[0] == 0x0A {
        0
    } else {
        1 + first_newline(chunk.drop_first())
    }
}

/// Where the image starts in a received chunk while `skip` header lines
/// remain, and how many remain after it. The search for a newline starts at
/// the beginning of the chunk on every line skipped, so a chunk holding a
/// newline ends the skipping at its first newline, which is written with the
/// image.
pub open spec fn chunk_start(chunk: Seq<u8>, skip: u32) -> (int, u32) {
    if skip == 0 || chunk.len() == 0 {
        (0, skip)
    } else if first_newline(chunk) == chunk.len() {
        (chunk.len() as int, (skip - 1) as u32)
    } else {
        (first_newline(chunk), 0)
    }
}

proof fn lemma_first_newline(chunk: Seq<u8>)
    ensures
        0 <= first_newline(chunk) <= chunk.len(),
        forall|i: int| 0 <= i < first_newline(chunk) ==> chunk[i] != 0x0A,
        first_newline(chunk) < chunk.len() ==> chunk[first_newline(chunk)] == 0x0A,
    decreases chunk.len(),
{
    if chunk.len() > 0 && chunk[0] != 0x0A {
        lemma_first_newline(chunk.drop_first());
        assert forall|i: int| 0 <= i < first_newline(chunk) implies chunk[i] != 0x0A by {
            if i > 0 {
                assert(chunk[i] == chunk.drop_first()[i - 1]);
            }
        }
    }
}

fn find_newline(chunk: &[u8]) -> (r: usize)
    ensures
        r == first_newline(chunk@),
{
    let mut i: usize = 0;
    proof {
        lemma_first_newline(chunk@);
    }
    while i < chunk.len() && chunk[i] != 0x0A
        invariant
            i <= chunk.len(),
            i <= first_newline(chunk@),
            0 <= first_newline(chunk@) <= chunk@.len(),
            forall|j: int| 0 <= j < first_newline(chunk@) ==> chunk@[j] != 0x0A,
            first_newline(chunk@) < chunk@.len() ==> chunk@[first_newline(chunk@)] == 0x0A,
        decreases chunk.len() - i,
    {
        i = i + 1;
    }
    i
}

/// Where the image starts in `chunk` while `skip` header lines remain, and
/// how many remain after it.
pub fn flash_chunk_start(chunk: &[u8], skip_lines: u32) -> (r: (usize, u32))
    ensures
        (r.0 as int, r.1) == chunk_start(chunk@, skip_lines),
{
    let size = chunk.len();
    let mut skip = skip_lines;
    let mut start: usize = 0;
    proof {
        lemma_first_newline(chunk@);
    }
    while skip > 0 && start != size
        invariant
            size == chunk.len(),
            0 <= first_newline(chunk@) <= chunk@.len(),
            skip <= skip_lines,
            size == 0 ==> skip == skip_lines,
            skip == skip_lines ==> start == 0,
            skip < skip_lines ==> start == first_newline(chunk@),
            skip < skip_lines && first_newline(chunk@) == size ==> skip == skip_lines - 1,
        decreases skip,
    {
        start = find_newline(chunk);
        skip = skip - 1;
    }
    proof {
        let c = chunk_start(chunk@, skip_lines);
        if skip_lines == 0 || chunk@.len() == 0 {
            assert(c == (0int, skip_lines));
            assert(start == 0 && skip == skip_lines);
        } else if first_newline(chunk@) == chunk@.len() {
            assert(c == (chunk@.len() as int, (skip_lines - 1) as u32));
            assert(skip < skip_lines);
            assert(start == size && skip == skip_lines - 1);
        } else {
            assert(c == (first_newline(chunk@), 0u32));
            assert(skip < skip_lines);
            assert(start as int == first_newline(chunk@) && skip == 0);
        }
    }
    (start, skip)
}

} // verus!
