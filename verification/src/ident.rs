//! Identifiers of jobs and favorites.

use vstd::prelude::*;
use crate::path::{components, is_absolute, is_name, is_within, joined, law_join_name, segments};

verus! {

pub open spec fn is_lower_hex(c: char) -> bool {
    '0' <= c <= '9' || 'a' <= c <= 'f'
}

/// The text of a random UUID: lower-case hexadecimal digits in groups of 8, 4,
/// 4, 4 and 12, with dashes between the groups; the third group begins with the
/// version, 4, and the fourth with the variant, one of 8, 9, a and b.
pub open spec fn is_random_uuid(s: Seq<char>) -> bool {
    &&& s.len() == 36
    &&& forall|i: int|
        0 <= i < 36 ==> if i == 8 || i == 13 || i == 18 || i == 23 {
            #[trigger] s[i] == '-'
        } else {
            is_lower_hex(s[i])
        }
    &&& s[14] == '4'
    &&& s[19] == '8' || s[19] == '9' || s[19] == 'a' || s[19] == 'b'
}

/// `uuid::Uuid::new_v4` draws a random UUID, and its `to_string` writes it in
/// the hyphenated form. Which one it is rests on chance; the form does not. It
/// panics where the machine has no random bytes to give, which no argument decides.
#[verifier::external_body]
pub(crate) fn fresh_id() -> (r: String)
    ensures
        is_random_uuid(r@),
{
    uuid::Uuid::new_v4().to_string()
}

/// A text without a slash is one segment.
pub proof fn lemma_one_segment(s: Seq<char>)
    requires
        forall|i: int| 0 <= i < s.len() ==> #[trigger] s[i] != '/',
    ensures
        segments(s) == seq![s],
    decreases s.len(),
{
    if s.len() > 0 {
        lemma_one_segment(s.drop_last());
        assert(segments(s) =~= seq![s.drop_last().push(s.last())]);
        assert(s.drop_last().push(s.last()) =~= s);
    } else {
        assert(s =~= Seq::empty());
    }
}

/// The text of a random UUID names one file or folder: it is a relative path of one segment.
pub proof fn law_uuid_is_one_name(id: Seq<char>)
    requires
        is_random_uuid(id),
    ensures
        !is_absolute(id),
        is_name(id),
        segments(id) == seq![id],
{
    assert forall|i: int| 0 <= i < id.len() implies #[trigger] id[i] != '/' by {
        assert(id[i] == '-' || is_lower_hex(id[i]));
    }
    assert(id[0] != '/');
    assert(id != seq!['.']) by {
        assert(seq!['.'].len() == 1);
    }
    lemma_one_segment(id);
}

/// The folder of a job with a random UUID is a folder of its own in the
/// download folder: no other such job has it.
pub proof fn law_job_folders_are_distinct(download_dir: Seq<char>, a: Seq<char>, b: Seq<char>)
    requires
        is_random_uuid(a),
        is_random_uuid(b),
    ensures
        components(joined(download_dir, a)) == components(download_dir).push(a),
        is_within(joined(download_dir, a), joined(download_dir, b)) <==> a == b,
{
    law_uuid_is_one_name(a);
    law_uuid_is_one_name(b);
    law_join_name(download_dir, a);
    law_join_name(download_dir, b);
    let x = components(joined(download_dir, a));
    let y = components(joined(download_dir, b));
    assert(x.last() == a && y.last() == b);
    if y.is_prefix_of(x) {
        assert(x.subrange(0, y.len() as int)[y.len() - 1] == x.last());
    }
}

} // verus!
