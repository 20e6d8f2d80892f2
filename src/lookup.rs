//! Reading what a user sends to the lookup dialogue.
use vstd::prelude::*;
use vstd::string::*;
use crate::text::{find_char, i32_of, index_of_char, parse_i32};

verus! {

/// `s` without its leading `/` characters.
pub open spec fn without_slashes(s: Seq<char>) -> Seq<char>
    decreases s.len(),
{
    if s.len() > 0 && s[0] == '/' {
        without_slashes(s.drop_first())
    } else {
        s
    }
}

/// The unit number of a reply such as `/31` or `/31@bot`: leading slashes
/// dropped, the text cut at the first `@`, the rest read as an integer.
pub open spec fn object_number_of(text: Seq<char>) -> Option<i32> {
    let t = without_slashes(text);
    i32_of(t.subrange(0, find_char(t, '@')))
}

pub fn object_number(text: &str) -> (r: Option<i32>)
    ensures
        r == object_number_of(text@),
{
    let n = text.unicode_len();
    let mut i: usize = 0;
    proof {
        assert(text@.subrange(0, n as int) =~= text@);
    }
    while i < n && text.get_char(i) == '/'
        invariant
            n == text@.len(),
            i <= n,
            without_slashes(text@.subrange(i as int, n as int)) == without_slashes(text@),
        decreases n - i,
    {
        proof {
            assert(text@.subrange(i + 1, n as int) =~= text@.subrange(i as int, n as int).drop_first());
        }
        i = i + 1;
    }
    let rest = text.substring_char(i, n);
    proof {
        if rest@.len() > 0 {
            assert(rest@[0] == text@[i as int]);
        }
        assert(without_slashes(rest@) == rest@);
    }
    let j = index_of_char(rest, '@');
    proof {
        crate::text::lemma_find_char(rest@, '@');
    }
    parse_i32(rest.substring_char(0, j))
}

} // verus!
