//! Which annotations of a page are comments, and the text each one shows.
use vstd::prelude::*;

verus! {

/// The annotation subtypes that carry a reader's comment: `Text`, `FreeText`, `Highlight`,
/// `StrikeOut`, `Underline` and `Squiggly`.
pub open spec fn comment_kinds() -> Seq<Seq<u8>> {
    seq![
        seq![84u8, 101u8, 120u8, 116u8],
        seq![70u8, 114u8, 101u8, 101u8, 84u8, 101u8, 120u8, 116u8],
        seq![72u8, 105u8, 103u8, 104u8, 108u8, 105u8, 103u8, 104u8, 116u8],
        seq![83u8, 116u8, 114u8, 105u8, 107u8, 101u8, 79u8, 117u8, 116u8],
        seq![85u8, 110u8, 100u8, 101u8, 114u8, 108u8, 105u8, 110u8, 101u8],
        seq![83u8, 113u8, 117u8, 105u8, 103u8, 103u8, 108u8, 121u8],
    ]
}

/// Whether an annotation of this subtype is a comment.
pub open spec fn is_comment_kind(subtype: Seq<u8>) -> bool {
    comment_kinds().contains(subtype)
}

/// Whether two byte strings are equal.
fn bytes_equal(a: &[u8], b: &[u8]) -> (r: bool)
    ensures
        r == (a@ == b@),
{
    if a.len() != b.len() {
        return false;
    }
    let mut k: usize = 0;
    while k < a.len()
        invariant
            k <= a@.len(),
            a@.len() == b@.len(),
            forall|q: int| 0 <= q < k ==> a@[q] == b@[q],
        decreases a@.len() - k,
    {
        if a[k] != b[k] {
            return false;
        }
        k = k + 1;
    }
    assert(a@ =~= b@);
    true
}

/// Whether an annotation of this subtype is a comment (`is_comment_kind`).
pub fn is_comment_subtype(subtype: &[u8]) -> (r: bool)
    ensures
        r == is_comment_kind(subtype@),
{
    let kinds: Vec<Vec<u8>> = vec![
        vec![84u8, 101u8, 120u8, 116u8],
        vec![70u8, 114u8, 101u8, 101u8, 84u8, 101u8, 120u8, 116u8],
        vec![72u8, 105u8, 103u8, 104u8, 108u8, 105u8, 103u8, 104u8, 116u8],
        vec![83u8, 116u8, 114u8, 105u8, 107u8, 101u8, 79u8, 117u8, 116u8],
        vec![85u8, 110u8, 100u8, 101u8, 114u8, 108u8, 105u8, 110u8, 101u8],
        vec![83u8, 113u8, 117u8, 105u8, 103u8, 103u8, 108u8, 121u8],
    ];
    let ghost listed = comment_kinds();
    proof {
        assert(kinds@.len() == 6);
        assert(listed.len() == 6);
        assert(kinds@[0]@ =~= listed[0]);
        assert(kinds@[1]@ =~= listed[1]);
        assert(kinds@[2]@ =~= listed[2]);
        assert(kinds@[3]@ =~= listed[3]);
        assert(kinds@[4]@ =~= listed[4]);
        assert(kinds@[5]@ =~= listed[5]);
    }
    let mut k: usize = 0;
    while k < kinds.len()
        invariant
            k <= 6,
            kinds@.len() == 6,
            listed == comment_kinds(),
            listed.len() == 6,
            forall|q: int| 0 <= q < 6 ==> (#[trigger] kinds@[q])@ == listed[q],
            forall|q: int| 0 <= q < k ==> subtype@ != listed[q],
        decreases 6 - k,
    {
        if bytes_equal(subtype, kinds[k].as_slice()) {
            assert(listed[k as int] == subtype@);
            return true;
        }
        k = k + 1;
    }
    assert(!listed.contains(subtype@));
    false
}

/// What `String::from_utf8` makes of these bytes: their text when they are valid UTF-8.
/// Claims what std documents: it succeeds exactly on valid UTF-8, with the decoded text.
#[verifier::external_body]
fn utf8_decode(bytes: Vec<u8>) -> (r: Option<String>)
    ensures
        r is Some <==> vstd::utf8::valid_utf8(bytes@),
        r matches Some(s) ==> s@ == vstd::utf8::decode_utf8(bytes@),
{
    String::from_utf8(bytes).ok()
}

/// The text a comment shows: the annotation's `/Contents` (its bytes, when it is a string),
/// for a comment subtype, when it is valid UTF-8 and not empty; otherwise there is none.
pub fn comment_text(subtype: &[u8], contents: Option<Vec<u8>>) -> (r: Option<String>)
    ensures
        r is Some <==> is_comment_kind(subtype@) && (contents matches Some(b) && vstd::utf8::valid_utf8(b@)
            && vstd::utf8::decode_utf8(b@).len() > 0),
        r matches Some(s) ==> s@ == vstd::utf8::decode_utf8(contents->0@),
{
    if !is_comment_subtype(subtype) {
        return None;
    }
    match contents {
        None => None,
        Some(b) => match utf8_decode(b) {
            None => None,
            Some(s) => {
                if s.as_str().unicode_len() == 0 {
                    None
                } else {
                    Some(s)
                }
            },
        },
    }
}

} // verus!
