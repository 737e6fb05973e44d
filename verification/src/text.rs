//! Character classification, numerals, and trimming.
//!
//! Everything downstream (the tokenizer, the adaptive splitter) agrees on one
//! notion of a blank character: the Unicode `White_Space` set, fixed here as
//! an explicit list of code points.

use vstd::prelude::*;
use vstd::std_specs::iter::IteratorSpec;

verus! {

/// A blank character: exactly the code points with the Unicode `White_Space`
/// property.
pub open spec fn is_space_char(c: char) -> bool {
    ||| c == ' '
    ||| c == '\t'
    ||| c == '\n'
    ||| c == '\u{000B}'
    ||| c == '\u{000C}'
    ||| c == '\r'
    ||| c == '\u{0085}'
    ||| c == '\u{00A0}'
    ||| c == '\u{1680}'
    ||| (0x2000 <= c as u32 && c as u32 <= 0x200A)
    ||| c == '\u{2028}'
    ||| c == '\u{2029}'
    ||| c == '\u{202F}'
    ||| c == '\u{205F}'
    ||| c == '\u{3000}'
}

/// Decides `is_space_char`.
pub fn is_space(c: char) -> (r: bool)
    ensures
        r == is_space_char(c),
{
    let u = c as u32;
    u == 0x20 || (0x09 <= u && u <= 0x0D) || u == 0x85 || u == 0xA0 || u == 0x1680
        || (0x2000 <= u && u <= 0x200A) || u == 0x2028 || u == 0x2029 || u == 0x202F
        || u == 0x205F || u == 0x3000
}

/// The first index at or after `i` holding a non-blank character, or the
/// length when there is none.
pub open spec fn first_content(s: Seq<char>, i: int) -> int
    decreases s.len() - i,
{
    if i < 0 || i >= s.len() {
        s.len() as int
    } else if !is_space_char(s[i]) {
        i
    } else {
        first_content(s, i + 1)
    }
}

/// One past the last index below `i` holding a non-blank character, or zero
/// when there is none.
pub open spec fn content_end(s: Seq<char>, i: int) -> int
    decreases i,
{
    if i <= 0 || i > s.len() {
        0
    } else if !is_space_char(s[i - 1]) {
        i
    } else {
        content_end(s, i - 1)
    }
}

/// `s` with leading and trailing blank characters removed.
pub open spec fn spec_trim(s: Seq<char>) -> Seq<char> {
    let a = first_content(s, 0);
    let b = content_end(s, s.len() as int);
    if a < b {
        s.subrange(a, b)
    } else {
        Seq::empty()
    }
}

/// The view of `s` with leading and trailing blank characters removed.
pub fn trim_str(s: &str) -> (r: String)
    ensures
        r@ == spec_trim(s@),
{
    let n = s.unicode_len();
    let mut a: usize = 0;
    while a < n && is_space(s.get_char(a))
        invariant
            a <= n,
            n == s@.len(),
            first_content(s@, 0) == first_content(s@, a as int),
        decreases n - a,
    {
        a = a + 1;
    }
    let mut b: usize = n;
    while b > a && is_space(s.get_char(b - 1))
        invariant
            a <= b <= n,
            n == s@.len(),
            content_end(s@, n as int) == content_end(s@, b as int),
            first_content(s@, 0) == first_content(s@, a as int),
        decreases b,
    {
        b = b - 1;
    }
    proof {
        if a < b {
            assert(first_content(s@, a as int) == a);
            assert(content_end(s@, b as int) == b);
        } else {
            if a < n {
                assert(first_content(s@, a as int) == a);
            }
            lemma_content_end_le(s@, b as int);
            if content_end(s@, b as int) > 0 {
                assert(!is_space_char(s@[content_end(s@, b as int) - 1]));
                lemma_first_content_le(s@, 0);
            }
        }
    }
    if a < b {
        let sub = s.substring_char(a, b);
        sub.to_owned()
    } else {
        String::new()
    }
}

/// `first_content` never answers below its starting point nor past the end.
pub proof fn lemma_first_content_le(s: Seq<char>, i: int)
    requires
        0 <= i <= s.len(),
    ensures
        i <= first_content(s, i) <= s.len(),
        forall|j: int| i <= j < first_content(s, i) ==> is_space_char(s[j]),
        first_content(s, i) < s.len() ==> !is_space_char(s[first_content(s, i)]),
    decreases s.len() - i,
{
    if i < s.len() && is_space_char(s[i]) {
        lemma_first_content_le(s, i + 1);
    }
}

/// `content_end` never answers past its starting point.
pub proof fn lemma_content_end_le(s: Seq<char>, i: int)
    requires
        i <= s.len(),
    ensures
        0 <= content_end(s, i) <= i || i < 0,
        forall|j: int| content_end(s, i) <= j < i ==> is_space_char(s[j]),
        content_end(s, i) > 0 && i >= 0 ==> !is_space_char(s[content_end(s, i) - 1]),
    decreases i,
{
    if i > 0 && is_space_char(s[i - 1]) {
        lemma_content_end_le(s, i - 1);
    }
}

/// The characters of `s`, in order, as a vector.
pub fn str_chars(s: &str) -> (r: Vec<char>)
    ensures
        r@ == s@,
{
    broadcast use vstd::string::next_postcondition;
    broadcast use vstd::string::axiom_spec_iter;

    let mut it = s.chars();
    let mut r: Vec<char> = Vec::new();
    loop
        invariant
            it.obeys_prophetic_iter_laws(),
            IteratorSpec::decrease(&it) is Some,
            r@ + IteratorSpec::remaining(&it) == s@,
        ensures
            r@ == s@,
        decreases IteratorSpec::decrease(&it)->0,
    {
        match it.next() {
            Some(c) => {
                r.push(c);
            },
            None => {
                proof {
                    assert(r@ =~= s@);
                }
                break ;
            },
        }
    }
    r
}

} // verus!
