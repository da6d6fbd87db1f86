//! Small bridges between `&str`, `String` and `Vec<char>`.
//!
//! The parsers in this crate work over vectors of Unicode scalars, and the
//! data model owns its strings outright; these helpers convert between the
//! three shapes while preserving the character sequence.

use vstd::prelude::*;

verus! {

/// The scalar of `s` at position `i`.
pub open spec fn char_at(s: Seq<char>, i: nat) -> char {
    s[i as int]
}

/// The views of a sequence of owned strings, in order.
pub open spec fn strings_view(s: Seq<String>) -> Seq<Seq<char>>
    decreases s.len(),
{
    if s.len() == 0 {
        Seq::empty()
    } else {
        strings_view(s.drop_last()).push(s.last()@)
    }
}

/// Each position of a string-sequence view holds the view of the string
/// at that position.
pub proof fn lemma_strings_view_index(s: Seq<String>)
    ensures
        strings_view(s).len() == s.len(),
        forall|j: int| 0 <= j < s.len() ==> strings_view(s)[j] == #[trigger] s[j]@,
    decreases s.len(),
{
    if s.len() > 0 {
        lemma_strings_view_index(s.drop_last());
        assert forall|j: int| 0 <= j < s.len() implies strings_view(s)[j] == #[trigger] s[j]@ by {
            if j < s.len() - 1 {
                assert(strings_view(s)[j] == strings_view(s.drop_last())[j]);
                assert(s.drop_last()[j] == s[j]);
            }
        }
    }
}

/// An owned copy of `s`, with the same characters.
pub fn str_to_string(s: &str) -> (r: String)
    ensures
        r@ == s@,
{
    String::from_str(s)
}

/// Whether two string slices hold the same characters.
///
/// Relies on `str`'s `PartialEq`: equality of the two character sequences.
#[verifier::external_body]
pub fn str_eq(a: &str, b: &str) -> (r: bool)
    ensures
        r == (a@ == b@),
{
    a == b
}

/// The `String` holding exactly the characters of `v`, in order.
///
/// Relies on `String`'s `FromIterator` over `char`: collecting scalars
/// yields the string spelled by them.
#[verifier::external_body]
pub fn chars_to_string(v: &Vec<char>) -> (r: String)
    ensures
        r@ == v@,
{
    v.iter().collect()
}

/// The characters of `s`, as a vector of Unicode scalars.
pub fn str_to_chars(s: &str) -> (r: Vec<char>)
    ensures
        r@ == s@,
{
    let len = s.unicode_len();
    let mut v: Vec<char> = Vec::new();
    let mut i: usize = 0;
    while i < len
        invariant
            len == s@.len(),
            i <= len,
            v@ == s@.subrange(0, i as int),
        decreases len - i,
    {
        let c = s.get_char(i);
        v.push(c);
        proof {
            assert(v@ =~= s@.subrange(0, i as int + 1));
        }
        i = i + 1;
    }
    proof {
        assert(v@ =~= s@);
    }
    v
}

} // verus!
