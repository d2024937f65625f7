//! The schema fingerprint: sha256 over the class and predicate URI lists.
use vstd::prelude::*;

use crate::store::{sha256_of, sha256_text};
use crate::text::{hex, hex_of, owned, push_all};

verus! {

/// Each URI followed by a newline.
pub open spec fn lines_of(uris: Seq<Seq<char>>) -> Seq<char>
    decreases uris.len(),
{
    if uris.len() == 0 {
        Seq::empty()
    } else {
        lines_of(uris.drop_last()) + uris.last() + seq!['\n']
    }
}

/// The hashed text: "classes", the class URIs, "predicates", the
/// predicate URIs, one per line.
pub open spec fn fingerprint_text(classes: Seq<Seq<char>>, predicates: Seq<Seq<char>>) -> Seq<char> {
    "classes\n"@ + lines_of(classes) + "predicates\n"@ + lines_of(predicates)
}

fn push_lines(out: &mut String, uris: &[String])
    ensures
        final(out)@ == old(out)@ + lines_of(uris@.map_values(|s: String| s@)),
{
    let ghost u = uris@.map_values(|s: String| s@);
    let ghost start = out@;
    let mut i: usize = 0;
    assert(start + lines_of(u.take(0)) =~= start);
    while i < uris.len()
        invariant
            i <= uris@.len(),
            u == uris@.map_values(|s: String| s@),
            out@ == start + lines_of(u.take(i as int)),
        decreases uris@.len() - i,
    {
        assert(u.take(i + 1).drop_last() =~= u.take(i as int));
        assert(u[i as int] == uris@[i as int]@);
        push_all(out, uris[i].as_str());
        out.push('\n');
        assert(out@ =~= start + lines_of(u.take(i + 1)));
        i = i + 1;
    }
    assert(u.take(i as int) =~= u);
}

/// "sha256:" and the lowercase hex sha256 of the fingerprint text.
pub fn schema_fingerprint(class_uris: &[String], predicate_uris: &[String]) -> (r: String)
    ensures
        r@ == "sha256:"@ + hex_of(
            sha256_of(
                fingerprint_text(
                    class_uris@.map_values(|s: String| s@),
                    predicate_uris@.map_values(|s: String| s@),
                ),
            ),
        ),
{
    let mut text = owned("classes\n");
    push_lines(&mut text, class_uris);
    push_all(&mut text, "predicates\n");
    push_lines(&mut text, predicate_uris);
    let digest = sha256_text(text.as_str());
    let mut r = owned("sha256:");
    let h = hex(digest.as_slice());
    push_all(&mut r, h.as_str());
    r
}

} // verus!
