//! Small verified helpers on strings, stated over their character sequences.

use vstd::prelude::*;
use vstd::string::StringExecFns;
use vstd::utf8::{encode_utf8, encode_utf8_decode_utf8};

verus! {

/// The name an inner member gets once its owner is inlined: the owner's name,
/// an underscore, then the member's own name.
pub open spec fn prefixed(owner: Seq<char>, member: Seq<char>) -> Seq<char> {
    owner + seq!['_'] + member
}

/// `index` is the position of the one and only `:` in `s`.
pub open spec fn sole_separator(s: Seq<char>, index: int) -> bool {
    &&& 0 <= index < s.len()
    &&& s[index] == ':'
    &&& forall|j: int| 0 <= j < s.len() && s[j] == ':' ==> j == index
}

/// `s` has the shorthand form `owner:member`: exactly one `:`, with a
/// non-empty part on either side of it.
pub open spec fn is_shorthand(s: Seq<char>) -> bool {
    exists|i: int| sole_separator(s, i) && 0 < i < s.len() - 1
}

/// The position of the separator of a shorthand name.
pub open spec fn separator_index(s: Seq<char>) -> int {
    choose|i: int| sole_separator(s, i)
}

/// The part of a shorthand name before its separator.
pub open spec fn shorthand_owner(s: Seq<char>) -> Seq<char> {
    s.take(separator_index(s))
}

/// The part of a shorthand name after its separator.
pub open spec fn shorthand_member(s: Seq<char>) -> Seq<char> {
    s.skip(separator_index(s) + 1)
}

/// A shorthand name `owner:member` becomes `owner_member`; every other name
/// stays as it is.
pub open spec fn rewrite_shorthand(s: Seq<char>) -> Seq<char> {
    if is_shorthand(s) {
        prefixed(shorthand_owner(s), shorthand_member(s))
    } else {
        s
    }
}

/// Two positions that are both the sole separator of one name coincide.
pub proof fn lemma_sole_separator_unique(s: Seq<char>, i: int, j: int)
    requires
        sole_separator(s, i),
        sole_separator(s, j),
    ensures
        i == j,
{
}

/// Whether two strings hold the same characters.
pub fn str_eq(a: &str, b: &str) -> (r: bool)
    ensures
        r == (a@ == b@),
{
    let x = a.as_bytes();
    let y = b.as_bytes();
    proof {
        encode_utf8_decode_utf8(a@);
        encode_utf8_decode_utf8(b@);
    }
    if x.len() != y.len() {
        return false;
    }
    let n = x.len();
    let mut i: usize = 0;
    while i < n
        invariant
            i <= n,
            n == x@.len(),
            n == y@.len(),
            x@ == encode_utf8(a@),
            y@ == encode_utf8(b@),
            forall|j: int| 0 <= j < i ==> x@[j] == y@[j],
        decreases n - i,
    {
        if x[i] != y[i] {
            assert(x@[i as int] != y@[i as int]);
            return false;
        }
        i += 1;
    }
    assert(x@ =~= y@);
    true
}

/// Builds `owner_member`.
pub fn join_names(owner: &str, member: &str) -> (r: String)
    ensures
        r@ == prefixed(owner@, member@),
{
    let mut s = String::from_str(owner);
    s.append("_");
    s.append(member);
    proof {
        reveal_strlit("_");
        assert(s@ =~= prefixed(owner@, member@));
    }
    s
}

/// Finds the separator of `s` when `s` is a shorthand name.
pub fn find_separator(s: &str) -> (r: Option<usize>)
    ensures
        r is Some <==> is_shorthand(s@),
        r is Some ==> sole_separator(s@, r.unwrap() as int),
{
    let n = s.unicode_len();
    let mut count: usize = 0;
    let mut first: usize = 0;
    let mut index: usize = 0;
    for c in it: s.chars()
        invariant
            it.seq() == s@,
            n == s@.len(),
            index == it.index(),
            count <= index,
            count == 0 ==> forall|j: int| 0 <= j < index ==> s@[j] != ':',
            count == 1 ==> first < index && s@[first as int] == ':' && forall|j: int|
                0 <= j < index && s@[j] == ':' ==> j == first,
            count >= 2 ==> exists|j: int, k: int|
                0 <= j < k < index && s@[j] == ':' && s@[k] == ':',
    {
        if c == ':' {
            if count == 0 {
                first = index;
            }
            if count < 2 {
                count += 1;
            }
        }
        index += 1;
    }
    if count == 1 && 0 < first && first + 1 < index {
        assert(sole_separator(s@, first as int));
        Some(first)
    } else {
        proof {
            if is_shorthand(s@) {
                let i = choose|i: int| sole_separator(s@, i) && 0 < i < s@.len() - 1;
                assert(false);
            }
        }
        None
    }
}

} // verus!
