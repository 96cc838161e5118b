use vstd::prelude::*;
use vstd::string::StringSliceAdditionalSpecFns;
use vstd::utf8::{is_char_boundary, pop_first_scalar, valid_utf8};

verus! {

/// The bytes begin with `src/` or `src\`.
pub open spec fn has_src_prefix(b: Seq<u8>) -> bool {
    &&& b.len() >= 4
    &&& b[0] == 115u8 && b[1] == 114u8 && b[2] == 99u8
    &&& b[3] == 47u8 || b[3] == 92u8
}

proof fn lemma_ascii_prefix_boundary(b: Seq<u8>, k: int)
    requires
        valid_utf8(b),
        0 <= k <= b.len(),
        forall|i: int| 0 <= i < k ==> b[i] <= 0x7f,
    ensures
        is_char_boundary(b, k),
    decreases k,
{
    if k > 0 {
        let p = pop_first_scalar(b);
        assert(p =~= b.subrange(1, b.len() as int));
        assert forall|i: int| 0 <= i < k - 1 implies p[i] <= 0x7f by {
            assert(p[i] == b[i + 1]);
        }
        lemma_ascii_prefix_boundary(p, k - 1);
    }
}

/// A source path as a message shows it: without a leading `src/` (or `src\`).
pub fn trim_file_src(src: &str) -> (r: &str)
    ensures
        has_src_prefix(src.spec_bytes()) ==> r.spec_bytes() == src.spec_bytes().skip(4),
        !has_src_prefix(src.spec_bytes()) ==> r == src,
{
    let b = src.as_bytes();
    if b.len() >= 4 && b[0] == 115u8 && b[1] == 114u8 && b[2] == 99u8 && (b[3] == 47u8 || b[3]
        == 92u8) {
        proof {
            vstd::utf8::encode_utf8_valid_utf8(src@);
            lemma_ascii_prefix_boundary(src.spec_bytes(), 4);
        }
        let (_, rest) = src.split_at(4);
        assert(rest.spec_bytes() =~= src.spec_bytes().skip(4));
        rest
    } else {
        src
    }
}

} // verus!
