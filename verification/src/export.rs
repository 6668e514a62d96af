//! Byte-level concatenation of a partition's file contents.

use vstd::prelude::*;

verus! {

/// Concatenates the given file contents back-to-back, with no delimiter
/// between them, in the order they are supplied. This is the byte-level core
/// of exporting one partition directory: the surrounding binary reads each
/// regular file in directory-listing order and writes the result out as
/// `raw_log.txt`.
pub fn concat_file_contents(files: &Vec<Vec<u8>>) -> (out: Vec<u8>)
    ensures
        out@ == files.deep_view().flatten(),
{
    broadcast use vstd::seq_lib::group_seq_properties;

    let mut out: Vec<u8> = Vec::new();
    let ghost all: Seq<Seq<u8>> = files.deep_view();
    proof {
        assert(all.take(0).flatten() =~= Seq::<u8>::empty());
    }
    let mut i: usize = 0;
    while i < files.len()
        invariant
            i <= files.len(),
            all == files.deep_view(),
            all.len() == files.len(),
            out@ == all.take(i as int).flatten(),
        decreases files.len() - i,
    {
        let file = &files[i];
        proof {
            assert(all[i as int] == file@);
        }
        let mut j: usize = 0;
        while j < file.len()
            invariant
                j <= file.len(),
                out@ == all.take(i as int).flatten() + file@.take(j as int),
            decreases file.len() - j,
        {
            out.push(file[j]);
            proof {
                assert(file@.take(j + 1 as int) =~= file@.take(j as int).push(file@[j as int]));
                assert(out@ =~= all.take(i as int).flatten() + file@.take(j + 1 as int));
            }
            j = j + 1;
        }
        proof {
            assert(file@.take(file@.len() as int) =~= file@);
            assert(all.take(i + 1 as int) =~= all.take(i as int).push(all[i as int]));
            all.take(i as int).lemma_flatten_push(all[i as int]);
            assert(out@ =~= all.take(i + 1 as int).flatten());
        }
        i = i + 1;
    }
    proof {
        assert(all.take(all.len() as int) =~= all);
    }
    out
}

} // verus!
